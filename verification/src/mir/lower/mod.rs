//! From the high-level representation to registers and blocks.

use vstd::prelude::*;

use crate::hir::{
    attrs_view as hir_attrs, functions_view as hir_functions, steps_view, Attr, Ctx, Field,
    Function as HirFunction, Hir, LocalId, NbtTag, Place, Root, Step, Type, Types,
};
use crate::mir::calls::Graph;
use crate::mir::model;
use crate::mir::rules::{self, Lx};
use crate::mir::{
    blocks_view, functions_view, insts_view, Block, BlockId, Cmp, Cond, Function, Inst, Mir, Op,
    Reg, RegKind,
};
use crate::names;
use crate::syntax::ast::BinaryOp;
use crate::syntax::model::Fault;
use crate::syntax::{faults, Span, SyntaxError};
use crate::text::{cat2, cat5, own, show_i32, show_u64, texts};

mod exprs;
mod stmts;

verus! {

/// What stays the same while one function is lowered.
pub(crate) struct Frame<'a> {
    pub(crate) functions: &'a Vec<HirFunction>,
    pub(crate) types: &'a Types,
    pub(crate) function: &'a HirFunction,
    pub(crate) debug: bool,
    pub(crate) graph: &'a Graph,
}

impl<'a> Frame<'a> {
    pub(crate) open spec fn view(&self) -> rules::Env {
        rules::Env {
            functions: hir_functions(self.functions@),
            types: self.types@,
            function: self.function@,
            debug: self.debug,
        }
    }

    pub(crate) open spec fn wf(&self) -> bool {
        self.graph.of(hir_functions(self.functions@))
    }
}

/// What an expression produced: either a number known now, or a register holding it.
///
/// Keeping constants unmaterialised until the last moment is what lets `let x = 5;` be
/// one `players set` instead of a `set` into a temporary and an `operation =`.
pub(crate) enum Value {
    Const(i32),
    Reg(Reg),
}

impl Value {
    pub(crate) open spec fn view(&self) -> rules::Value {
        match self {
            Value::Const(n) => rules::Value::Const(*n),
            Value::Reg(reg) => rules::Value::Reg(reg@),
        }
    }

    pub(crate) fn copy(&self) -> (r: Value)
        ensures
            r@ == self@,
    {
        match self {
            Value::Const(n) => Value::Const(*n),
            Value::Reg(reg) => Value::Reg(reg.copy()),
        }
    }
}

/// Where a value to be written into storage came from.
pub(crate) enum Written {
    /// Already SNBT: `set value` takes it as it is.
    Const(String),
    Reg(Reg),
    /// A path to copy from, for a composite.
    Data(String),
}

impl Written {
    pub(crate) open spec fn view(&self) -> rules::Written {
        match self {
            Written::Const(text) => rules::Written::Const(text@),
            Written::Reg(reg) => rules::Written::Reg(reg@),
            Written::Data(path) => rules::Written::Data(path@),
        }
    }
}

/// A place a frame has to be saved from and restored to.
pub(crate) enum Slot {
    Score(Reg),
    Data(String),
}

impl Slot {
    pub(crate) open spec fn view(&self) -> rules::Slot {
        match self {
            Slot::Score(reg) => rules::Slot::Score(reg@),
            Slot::Data(path) => rules::Slot::Data(path@),
        }
    }
}

pub(crate) open spec fn slots_view(v: Seq<Slot>) -> Seq<rules::Slot> {
    Seq::new(v.len(), |i: int| v[i]@)
}

pub(crate) open spec fn regs_view(v: Seq<Reg>) -> Seq<model::Reg> {
    Seq::new(v.len(), |i: int| v[i]@)
}

/// The number after `n`.
fn after(n: u32) -> (r: u32)
    ensures
        r == rules::after(n),
{
    n.wrapping_add(1)
}

pub(crate) fn boxed(inst: Inst) -> (r: Box<Inst>)
    ensures
        r@ == inst.shallow(),
{
    proof {
        inst.unfold();
    }
    Box::new(inst)
}

// Where things live.

pub(crate) fn local_type(f: &HirFunction, local: LocalId) -> (r: Type)
    ensures
        r == rules::local_of(f@, local).ty,
{
    if (local.0 as usize) < f.locals.len() {
        f.locals[local.0 as usize].ty
    } else {
        Type::I32
    }
}

fn local_name(f: &HirFunction, local: LocalId) -> (r: String)
    ensures
        r@ == rules::local_of(f@, local).name,
{
    if (local.0 as usize) < f.locals.len() {
        f.locals[local.0 as usize].name.clone()
    } else {
        let r = String::new();
        proof {
            assert(r@ =~= seq![]);
        }
        r
    }
}

pub(crate) fn local_reg(f: &HirFunction, local: LocalId) -> (r: Reg)
    ensures
        r@ == rules::local_reg(f@, local),
{
    Reg {
        holder: names::fake_player(f.name.as_str(), local_name(f, local).as_str()),
        kind: RegKind::Var,
    }
}

/// Where a composite binding lives.
pub(crate) fn local_path(f: &HirFunction, local: LocalId) -> (r: String)
    ensures
        r@ == rules::local_path(f@, local),
{
    names::var_path(f.name.as_str(), local_name(f, local).as_str())
}

fn ctl_reg(f: &HirFunction) -> (r: Reg)
    ensures
        r@ == rules::ctl_reg(f@),
{
    Reg { holder: names::fake_player(f.name.as_str(), "ctl"), kind: RegKind::Var }
}

fn ret_reg(f: &HirFunction) -> (r: Reg)
    ensures
        r@ == rules::ret_reg(f@),
{
    Reg { holder: names::fake_player(f.name.as_str(), "ret"), kind: RegKind::Var }
}

/// Where a place lives: the binding's path with one step per field or index.
pub(crate) fn place_path(f: &HirFunction, place: &Place) -> (r: String)
    ensures
        r@ == rules::place_path(f@, place@),
{
    proof {
        place.unfold();
    }
    let mut path = match &place.root {
        Root::Local(local) => local_path(f, *local),
        Root::Lent { owner, local, .. } => names::var_path(owner.as_str(), local.as_str()),
        Root::Entity { .. } => String::new(),
    };
    proof {
        if place@.root is Entity {
            assert(path@ =~= seq![]);
        }
    }
    let ghost root = path@;
    let ghost steps = steps_view(place.steps@);
    let mut i: usize = 0;
    while i < place.steps.len()
        invariant
            i <= place.steps@.len(),
            steps == steps_view(place.steps@),
            steps == place@.steps,
            root == rules::root_path(f@, place@.root),
            path@ + rules::steps_path(steps, i as int) == root + rules::steps_path(steps, 0),
        decreases place.steps.len() - i,
    {
        proof {
            place.steps@[i as int].unfold();
            assert(steps[i as int] == place.steps@[i as int]@);
        }
        let ghost before = path@;
        let ghost rest = rules::steps_path(steps, i + 1);
        match &place.steps[i] {
            Step::Field(name) => {
                path.append(".");
                path.append(name.as_str());
                proof {
                    assert(path@ + rest =~= before + ("."@ + name@ + rest));
                }
            },
            Step::Index(index) => {
                let n = show_i32(*index);
                path.append("[");
                path.append(n.as_str());
                path.append("]");
                proof {
                    assert(path@ + rest =~= before + ("["@ + n@ + "]"@ + rest));
                }
            },
            Step::At(_) => {
                proof {
                    assert(path@ + Seq::<char>::empty() =~= path@);
                }
                return path;
            },
        }
        i += 1;
    }
    proof {
        assert(path@ + rules::steps_path(steps, i as int) =~= path@);
    }
    path
}

/// The register a place names, for a scalar that lives on the scoreboard.
pub(crate) fn place_reg(f: &HirFunction, place: &Place) -> (r: Reg)
    ensures
        r@ == rules::place_reg(f@, place@),
{
    proof {
        place.unfold();
    }
    match &place.root {
        Root::Local(local) => local_reg(f, *local),
        Root::Lent { owner, local, .. } => Reg {
            holder: names::fake_player(owner.as_str(), local.as_str()),
            kind: RegKind::Var,
        },
        Root::Entity { .. } => {
            let r = Reg { holder: String::new(), kind: RegKind::Var };
            proof {
                assert(r@.holder =~= seq![]);
            }
            r
        },
    }
}

/// The path a macro line writes, with the substitution in place of the index.
pub(crate) fn spliced(prefix: &str) -> (r: String)
    ensures
        r@ == rules::spliced(prefix@),
{
    cat2(prefix, "[$(i)]")
}

/// The tag to store a scalar as when nothing named one.
pub(crate) fn stored_tag(tag: Option<NbtTag>) -> (r: NbtTag)
    ensures
        r == rules::stored_tag(tag),
{
    match tag {
        Some(tag) => tag,
        None => NbtTag::Int,
    }
}

pub(crate) fn tag_suffix(tag: Option<NbtTag>) -> (r: &'static str)
    ensures
        r@ == rules::tag_suffix(tag),
{
    match tag {
        Some(tag) => tag.suffix(),
        None => {
            proof {
                reveal_strlit("");
                assert(""@ =~= seq![]);
            }
            ""
        },
    }
}

// Operators.

pub(crate) fn is_comparison(op: BinaryOp) -> (r: bool)
    ensures
        r == rules::is_comparison(op),
{
    matches!(
        op,
        BinaryOp::Eq | BinaryOp::Ne | BinaryOp::Lt | BinaryOp::Le | BinaryOp::Gt | BinaryOp::Ge
    )
}

fn arith(op: BinaryOp) -> (r: Op)
    ensures
        r == rules::arith(op),
{
    match op {
        BinaryOp::Add => Op::Add,
        BinaryOp::Sub => Op::Sub,
        BinaryOp::Mul => Op::Mul,
        BinaryOp::Div => Op::Div,
        BinaryOp::Rem => Op::Rem,
        BinaryOp::And => Op::Min,
        BinaryOp::Or => Op::Max,
        _ => Op::Assign,
    }
}

pub(crate) fn comparison(op: BinaryOp) -> (r: (Cmp, bool))
    ensures
        r == rules::comparison(op),
{
    match op {
        BinaryOp::Ne => (Cmp::Eq, true),
        BinaryOp::Lt => (Cmp::Lt, false),
        BinaryOp::Le => (Cmp::Le, false),
        BinaryOp::Gt => (Cmp::Gt, false),
        BinaryOp::Ge => (Cmp::Ge, false),
        _ => (Cmp::Eq, false),
    }
}

/// The `matches` range for `<reg> <op> <n>`, or `None` when the bound would overflow.
pub(crate) fn range_for(op: BinaryOp, n: i32) -> (r: Option<(Option<i32>, Option<i32>, bool)>)
    ensures
        r == rules::range_for(op, n),
{
    match op {
        BinaryOp::Eq => Some((Some(n), Some(n), false)),
        BinaryOp::Ne => Some((Some(n), Some(n), true)),
        BinaryOp::Lt => {
            if n == i32::MIN {
                None
            } else {
                Some((None, Some(n - 1), false))
            }
        },
        BinaryOp::Le => Some((None, Some(n), false)),
        BinaryOp::Gt => {
            if n == i32::MAX {
                None
            } else {
                Some((Some(n + 1), None, false))
            }
        },
        BinaryOp::Ge => Some((Some(n), None, false)),
        _ => None,
    }
}

fn wrapped_neg(n: i32) -> (r: i32)
    ensures
        r == rules::wrapped_neg(n),
{
    if n == i32::MIN {
        n
    } else {
        -n
    }
}

/// The tag string a variant of an enum is stored under.
pub(crate) fn variant_name(types: &Types, ty: Type, variant: u32) -> (r: String)
    ensures
        r@ == rules::variant_name(types@, ty, variant),
{
    match ty {
        Type::Enum(id) => match types.find_enum(id) {
            Some(def) => {
                if (variant as usize) < def.variants.len() {
                    return def.variants[variant as usize].name.clone();
                }
            },
            None => {},
        },
        _ => {},
    }
    let r = String::new();
    proof {
        assert(r@ =~= seq![]);
    }
    r
}

/// The state of a lowering.
pub(crate) struct Lowering {
    scores: u32,
    data: u32,
    iters: u32,
    used: Vec<Reg>,
    used_data: Vec<String>,
    used_ctl: bool,
    initialised: Vec<LocalId>,
    errs: Vec<SyntaxError>,
    at: Span,
    insts: Vec<Inst>,
    generated: Vec<Function>,
    prefix: String,
    counter: u32,
    top_level: bool,
    body_root: bool,
}

/// What a block keeps while one split out of it is lowered.
pub(crate) struct Outer {
    pub(crate) insts: Vec<Inst>,
    pub(crate) generated: Vec<Function>,
    pub(crate) prefix: String,
    pub(crate) counter: u32,
    pub(crate) top_level: bool,
    pub(crate) body_root: bool,
}

impl Outer {
    /// The state with this block in place of the one that was split out.
    pub(crate) open spec fn over(&self, inner: Lx) -> Lx {
        Lx {
            insts: insts_view(self.insts@),
            generated: functions_view(self.generated@),
            prefix: self.prefix@,
            counter: self.counter,
            top_level: self.top_level,
            body_root: self.body_root,
            ..inner
        }
    }
}

impl Lowering {
    #[verifier::opaque]
    pub(crate) closed spec fn view(&self) -> Lx {
        Lx {
            scores: self.scores,
            data: self.data,
            iters: self.iters,
            used: regs_view(self.used@),
            used_data: texts(self.used_data@),
            used_ctl: self.used_ctl,
            initialised: self.initialised@,
            errs: faults(self.errs@),
            at: self.at,
            insts: insts_view(self.insts@),
            generated: functions_view(self.generated@),
            prefix: self.prefix@,
            counter: self.counter,
            top_level: self.top_level,
            body_root: self.body_root,
        }
    }

    fn start() -> (r: Lowering)
        ensures
            r@ == (Lx {
                scores: 0,
                data: 0,
                iters: 0,
                used: seq![],
                used_data: seq![],
                used_ctl: false,
                initialised: seq![],
                errs: seq![],
                at: Span { start: 0, end: 0 },
                insts: seq![],
                generated: seq![],
                prefix: seq![],
                counter: 0,
                top_level: true,
                body_root: false,
            }),
    {
        let r = Lowering {
            scores: 0,
            data: 0,
            iters: 0,
            used: Vec::new(),
            used_data: Vec::new(),
            used_ctl: false,
            initialised: Vec::new(),
            errs: Vec::new(),
            at: Span { start: 0, end: 0 },
            insts: Vec::new(),
            generated: Vec::new(),
            prefix: String::new(),
            counter: 0,
            top_level: true,
            body_root: false,
        };
        proof {
            reveal(Lowering::view);
            assert(r@.used =~= seq![]);
            assert(r@.used_data =~= seq![]);
            assert(r@.initialised =~= seq![]);
            assert(r@.errs =~= seq![]);
            assert(r@.insts =~= seq![]);
            assert(r@.generated =~= seq![]);
            assert(r@.prefix =~= seq![]);
        }
        r
    }

    /// Begins another function.
    fn fresh(&mut self, f: &HirFunction)
        ensures
            final(self)@ == rules::fresh(old(self)@, f@),
    {
        proof {
            reveal(Lowering::view);
        }
        self.used = Vec::new();
        self.used_data = Vec::new();
        self.used_ctl = false;
        let mut initialised: Vec<LocalId> = Vec::new();
        let mut i: usize = 0;
        while i < f.params.len()
            invariant
                i <= f.params@.len(),
                initialised@ == f.params@.take(i as int),
            decreases f.params.len() - i,
        {
            initialised.push(f.params[i]);
            proof {
                assert(initialised@ =~= f.params@.take(i + 1));
            }
            i += 1;
        }
        self.initialised = initialised;
        self.insts = Vec::new();
        self.generated = Vec::new();
        self.prefix = f.path.clone();
        self.counter = 0;
        self.top_level = true;
        self.body_root = false;
        proof {
            assert(self@.used =~= seq![]);
            assert(self@.used_data =~= seq![]);
            assert(self@.initialised =~= f@.params);
            assert(self@.insts =~= seq![]);
            assert(self@.generated =~= seq![]);
        }
    }

    pub(super) fn emit(&mut self, inst: Inst)
        ensures
            final(self)@ == old(self)@.emit(inst.shallow()),
    {
        proof {
            reveal(Lowering::view);
            inst.unfold();
        }
        let ghost before = self@;
        self.insts.push(inst);
        proof {
            assert(self@.insts =~= before.insts.push(inst.shallow()));
        }
    }

    /// Records what cannot be lowered yet.
    pub(super) fn unsupported(&mut self, what: &str)
        ensures
            final(self)@ == old(self)@.unsupported(what@),
    {
        proof {
            reveal(Lowering::view);
        }
        let ghost before = self@;
        let message = cat2(what, " is not implemented yet");
        self.errs.push(SyntaxError { span: self.at, message });
        proof {
            assert(self@.errs =~= before.unsupported(what@).errs);
        }
    }

    /// Reports a problem.
    pub(super) fn fault(&mut self, span: Span, message: String)
        ensures
            final(self)@ == (Lx {
                errs: old(self)@.errs.push(Fault { span, message: message@ }),
                ..old(self)@
            }),
    {
        proof {
            reveal(Lowering::view);
        }
        let ghost before = self@;
        let ghost shown = Fault { span, message: message@ };
        self.errs.push(SyntaxError { span, message });
        proof {
            assert(self@.errs =~= before.errs.push(shown));
        }
    }

    pub(super) fn set_at(&mut self, at: Span)
        ensures
            final(self)@ == (Lx { at, ..old(self)@ }),
    {
        proof {
            reveal(Lowering::view);
        }
        self.at = at;
    }

    pub(super) fn temp(&mut self) -> (r: Reg)
        ensures
            (final(self)@, r@) == old(self)@.temp(),
    {
        proof {
            reveal(Lowering::view);
        }
        let ghost before = self@;
        let reg = Reg {
            holder: cat2("$t", show_u64(self.scores as u64).as_str()),
            kind: RegKind::Temp,
        };
        self.scores = after(self.scores);
        self.used.push(reg.copy());
        proof {
            assert(self@.used =~= before.used.push(reg@));
        }
        reg
    }

    /// A temporary in storage, for a composite that has no register to sit in.
    pub(super) fn data_temp(&mut self) -> (r: String)
        ensures
            (final(self)@, r@) == old(self)@.data_temp(),
    {
        proof {
            reveal(Lowering::view);
        }
        let ghost before = self@;
        let path = cat2("mw.tmp.m", show_u64(self.data as u64).as_str());
        self.data = after(self.data);
        self.used_data.push(path.clone());
        proof {
            assert(self@.used_data =~= before.used_data.push(path@));
        }
        path
    }

    /// The copy a `for` walks through, under the root reserved for it.
    pub(super) fn iter_temp(&mut self) -> (r: String)
        ensures
            (final(self)@, r@) == old(self)@.iter_temp(),
    {
        proof {
            reveal(Lowering::view);
        }
        let ghost before = self@;
        let path = cat2("mw.iter.i", show_u64(self.iters as u64).as_str());
        self.iters = after(self.iters);
        self.used_data.push(path.clone());
        proof {
            assert(self@.used_data =~= before.used_data.push(path@));
        }
        path
    }

    /// The path of the next function split out of this one.
    pub(super) fn next_path(&mut self, kind: &str) -> (r: String)
        ensures
            r@ == old(self)@.next_path(kind@),
            final(self)@ == old(self)@.counted(),
    {
        proof {
            reveal(Lowering::view);
        }
        let path = cat5(
            self.prefix.as_str(),
            "/",
            kind,
            "_",
            show_u64(self.counter as u64).as_str(),
        );
        self.counter = after(self.counter);
        path
    }

    pub(super) fn prefix(&self) -> (r: String)
        ensures
            r@ == self@.prefix,
    {
        proof {
            reveal(Lowering::view);
        }
        self.prefix.clone()
    }

    pub(super) fn counter(&self) -> (r: u32)
        ensures
            r == self@.counter,
    {
        proof {
            reveal(Lowering::view);
        }
        self.counter
    }

    pub(super) fn count(&mut self)
        ensures
            final(self)@ == old(self)@.counted(),
    {
        proof {
            reveal(Lowering::view);
        }
        self.counter = after(self.counter);
    }

    pub(super) fn top_level(&self) -> (r: bool)
        ensures
            r == self@.top_level,
    {
        proof {
            reveal(Lowering::view);
        }
        self.top_level
    }

    pub(super) fn set_body_root(&mut self)
        ensures
            final(self)@ == (Lx { body_root: true, ..old(self)@ }),
    {
        proof {
            reveal(Lowering::view);
        }
        self.body_root = true;
    }

    pub(super) fn initialise(&mut self, local: LocalId)
        ensures
            final(self)@ == old(self)@.initialise(local),
    {
        proof {
            reveal(Lowering::view);
        }
        self.initialised.push(local);
    }

    pub(super) fn touch_ctl(&mut self)
        ensures
            final(self)@ == old(self)@.touch_ctl(),
    {
        proof {
            reveal(Lowering::view);
        }
        self.used_ctl = true;
    }

    pub(super) fn record(
        &mut self,
        id: crate::hir::FnId,
        path: String,
        insts: Vec<Inst>,
        generated: Vec<Function>,
    )
        ensures
            final(self)@ == old(self)@.record(
                id,
                path@,
                insts_view(insts@),
                functions_view(generated@),
            ),
    {
        proof {
            reveal(Lowering::view);
        }
        let ghost before = self@;
        let ghost code = insts_view(insts@);
        let ghost more = functions_view(generated@);
        let one = function_of(id, path, Vec::new(), insts);
        proof {
            assert(one@.attrs =~= seq![]);
        }
        self.generated.push(one);
        let mut generated = generated;
        self.generated.append(&mut generated);
        proof {
            assert(self@.generated =~= before.record(id, path@, code, more).generated);
        }
    }

    /// Begins a block split out of this one.
    pub(super) fn open(&mut self, prefix: &str) -> (r: Outer)
        ensures
            final(self)@ == old(self)@.child(prefix@),
            forall|inner: Lx| #[trigger]
                r.over(inner) == (Lx {
                    insts: old(self)@.insts,
                    generated: old(self)@.generated,
                    prefix: old(self)@.prefix,
                    counter: old(self)@.counter,
                    top_level: old(self)@.top_level,
                    body_root: old(self)@.body_root,
                    ..inner
                }),
    {
        proof {
            reveal(Lowering::view);
        }
        let mut insts: Vec<Inst> = Vec::new();
        let mut generated: Vec<Function> = Vec::new();
        let mut own_prefix = own(prefix);
        std::mem::swap(&mut insts, &mut self.insts);
        std::mem::swap(&mut generated, &mut self.generated);
        std::mem::swap(&mut own_prefix, &mut self.prefix);
        let outer = Outer {
            insts,
            generated,
            prefix: own_prefix,
            counter: self.counter,
            top_level: self.top_level,
            body_root: self.body_root,
        };
        self.counter = 0;
        self.top_level = false;
        self.body_root = false;
        proof {
            assert(self@.insts =~= seq![]);
            assert(self@.generated =~= seq![]);
        }
        outer
    }

    /// Ends a block split out of another, which takes it up.
    pub(super) fn close(&mut self, id: crate::hir::FnId, path: String, outer: Outer)
        ensures
            final(self)@ == outer.over(old(self)@).record(
                id,
                path@,
                old(self)@.insts,
                old(self)@.generated,
            ),
    {
        proof {
            reveal(Lowering::view);
        }
        let mut outer = outer;
        std::mem::swap(&mut outer.insts, &mut self.insts);
        std::mem::swap(&mut outer.generated, &mut self.generated);
        self.prefix = outer.prefix;
        self.counter = outer.counter;
        self.top_level = outer.top_level;
        self.body_root = outer.body_root;
        self.record(id, path, outer.insts, outer.generated);
    }

    pub(super) fn inst_count(&self) -> (r: usize)
        ensures
            r == self@.insts.len(),
    {
        proof {
            reveal(Lowering::view);
        }
        self.insts.len()
    }

    /// Takes back the instructions after the first `before`: the one there is, or all of
    /// them.
    pub(super) fn take_back(&mut self, before: usize) -> (r: Option<Inst>)
        ensures
            final(self)@ == (Lx {
                insts: crate::hir::rules::stmts::kept(old(self)@.insts, before as nat),
                ..old(self)@
            }),
            match r {
                Some(inst) => old(self)@.insts.len() == before + 1 && inst@
                    == old(self)@.insts.last(),
                None => old(self)@.insts.len() != before + 1,
            },
    {
        proof {
            reveal(Lowering::view);
        }
        let ghost start = self@;
        if self.insts.len() > 0 && self.insts.len() - 1 == before {
            let one = self.insts.pop();
            proof {
                assert(self@.insts =~= crate::hir::rules::stmts::kept(start.insts, before as nat));
            }
            one
        } else {
            if before <= self.insts.len() {
                self.insts.truncate(before);
            }
            proof {
                assert(self@.insts =~= crate::hir::rules::stmts::kept(start.insts, before as nat));
            }
            None
        }
    }

    // Values.

    pub(super) fn copy_into(&mut self, dst: Reg, value: Value)
        ensures
            final(self)@ == rules::copy_into(old(self)@, dst@, value@),
    {
        match value {
            Value::Const(n) => self.emit(Inst::Const { dst, value: n }),
            Value::Reg(src) => self.emit(Inst::Op { dst, op: Op::Assign, src }),
        }
    }

    /// Puts a value in a register, spending a command only if it was a constant.
    pub(super) fn materialise(&mut self, value: Value) -> (r: Reg)
        ensures
            (final(self)@, r@) == rules::materialise(old(self)@, value@),
    {
        match value {
            Value::Reg(reg) => reg,
            Value::Const(n) => {
                let dst = self.temp();
                self.emit(Inst::Const { dst: dst.copy(), value: n });
                dst
            },
        }
    }

    /// A comparison against a constant becomes a `matches` range, which is one command
    /// rather than two.
    pub(super) fn compare_into(&mut self, dst: Reg, op: BinaryOp, lhs: Value, rhs: Value)
        ensures
            final(self)@ == rules::compare_into(old(self)@, dst@, op, lhs@, rhs@),
    {
        proof {
            reveal(rules::compare_into);
        }
        let range = match (&lhs, &rhs) {
            (Value::Reg(src), Value::Const(n)) => match range_for(op, *n) {
                Some((min, max, negated)) => Some((src.copy(), min, max, negated)),
                None => None,
            },
            _ => None,
        };
        match range {
            Some((src, min, max, negated)) => {
                self.emit(Inst::Matches { dst, src, min, max, negated });
            },
            None => {
                let lhs = self.materialise(lhs);
                let rhs = self.materialise(rhs);
                let (by, negated) = comparison(op);
                self.emit(Inst::Cmp { dst, cmp: by, negated, lhs, rhs });
            },
        }
    }

    /// Arithmetic on a register.
    pub(super) fn apply(&mut self, dst: Reg, op: BinaryOp, value: Value)
        ensures
            final(self)@ == rules::apply(old(self)@, dst@, op, value@),
    {
        proof {
            reveal(rules::apply);
        }
        match (op, &value) {
            (BinaryOp::Add, Value::Const(n)) => {
                let n: i32 = *n;
                self.emit(Inst::AddConst { dst, value: n });
            },
            (BinaryOp::Sub, Value::Const(n)) => {
                let n: i32 = wrapped_neg(*n);
                self.emit(Inst::AddConst { dst, value: n });
            },
            _ => {
                let src = self.materialise(value);
                self.emit(Inst::Op { dst, op: arith(op), src });
            },
        }
    }

    /// A generated function whose whole body is one macro line.
    pub(super) fn macro_helper(&mut self, env: &Frame, kind: &str, inst: Inst) -> (r: String)
        ensures
            (final(self)@, r@) == rules::macro_helper(
                env@,
                old(self)@,
                kind@,
                inst.shallow(),
            ),
    {
        proof {
            reveal(rules::macro_helper);
        }
        let path = self.next_path(kind);
        let mut insts: Vec<Inst> = Vec::new();
        let line = Inst::Macro { inst: boxed(inst) };
        proof {
            line.unfold();
        }
        insts.push(line);
        let none: Vec<Function> = Vec::new();
        proof {
            assert(insts_view(insts@) =~= seq![model::Inst::Macro(Box::new(inst.shallow()))]);
            assert(functions_view(none@) =~= seq![]);
        }
        self.record(env.function.id, path.clone(), insts, none);
        path
    }

    /// A path split into the compound that holds it and the key inside.
    pub(super) fn filterable(&mut self, path: String) -> (r: (String, String))
        ensures
            (final(self)@, r.0@, r.1@) == rules::filterable(old(self)@, path@),
    {
        proof {
            reveal(rules::filterable);
        }
        let v = crate::text::chars(path.as_str());
        let cut = crate::text::find_last(&v, '.');
        match cut {
            Some(at) => {
                if !(v.len() - at > 1 && v[v.len() - 1] == ']') {
                    let parent = crate::text::slice(&v, 0, at);
                    let key = crate::text::slice(&v, at + 1, v.len());
                    proof {
                        assert(parent@ =~= path@.take(at as int));
                        assert(key@ =~= path@.skip(at + 1));
                    }
                    return (parent, key);
                }
            },
            None => {},
        }
        let temp = self.data_temp();
        self.emit(Inst::CopyData { dst: temp.clone(), src: path });
        let v = crate::text::chars(temp.as_str());
        match crate::text::find_last(&v, '.') {
            Some(at) => {
                let end: usize = v.len();
                let parent = crate::text::slice(&v, 0, at);
                let key = crate::text::slice(&v, at + 1, end);
                proof {
                    assert(parent@ =~= temp@.take(at as int));
                    assert(key@ =~= temp@.skip(at + 1));
                }
                (parent, key)
            },
            None => {
                let parent = String::new();
                proof {
                    assert(parent@ =~= seq![]);
                    assert(temp@ =~= temp@.skip(0));
                }
                (parent, temp)
            },
        }
    }

    /// An entity's own NBT is out of reach of the storage commands.
    pub(super) fn check_root(&mut self, place: &Place)
        ensures
            final(self)@ == rules::check_root(old(self)@, place@),
    {
        proof {
            place.unfold();
        }
        match &place.root {
            Root::Entity { .. } => {
                self.unsupported("reading or writing an entity's own NBT");
            },
            _ => {},
        }
    }

    // Control transfers.

    /// `break`, `continue` and `return` all leave the same way.
    pub(super) fn jump(&mut self, env: &Frame, code: i32)
        ensures
            final(self)@ == rules::jump(env@, old(self)@, code),
    {
        proof {
            reveal(rules::jump);
        }
        if code == rules::CTL_CONTINUE && self.body_root() {
            self.emit(Inst::Return { value: 0 });
            return;
        }
        self.touch_ctl();
        self.emit(Inst::Const { dst: ctl_reg(env.function), value: code });
        self.emit(Inst::Return { value: 0 });
    }

    fn body_root(&self) -> (r: bool)
        ensures
            r == self@.body_root,
    {
        proof {
            reveal(Lowering::view);
        }
        self.body_root
    }

    /// Returns at once where a control transfer is under way.
    pub(super) fn leave_if_jumping(&mut self, env: &Frame)
        ensures
            final(self)@ == old(self)@.touch_ctl().emit(
                model::Inst::Guarded(
                    rules::ctl_is(env@, rules::CTL_BREAK, None),
                    Box::new(model::Inst::Return(0)),
                ),
            ),
    {
        self.touch_ctl();
        let cond = Cond::Matches {
            src: ctl_reg(env.function),
            min: Some(rules::CTL_BREAK),
            max: None,
            negated: false,
        };
        self.emit(Inst::Guarded { cond, inst: boxed(Inst::Return { value: 0 }) });
    }

    /// Hands a control transfer upwards.
    pub(super) fn propagate(&mut self, env: &Frame)
        ensures
            final(self)@ == rules::propagate(env@, old(self)@),
    {
        proof {
            reveal(rules::propagate);
        }
        if !self.top_level() {
            self.leave_if_jumping(env);
            return;
        }
        let inst = match env.function.ret {
            Some(_) => Inst::ReturnRun { inst: boxed(Inst::Get { src: ret_reg(env.function) }) },
            None => Inst::Return { value: 0 },
        };
        self.touch_ctl();
        let cond = Cond::Matches {
            src: ctl_reg(env.function),
            min: Some(rules::CTL_RETURN),
            max: Some(rules::CTL_RETURN),
            negated: false,
        };
        self.emit(Inst::Guarded { cond, inst: boxed(inst) });
    }

    /// Clears one control code, because this is the construct it was meant for.
    pub(super) fn consume(&mut self, env: &Frame, code: i32)
        ensures
            final(self)@ == rules::consume(env@, old(self)@, code),
    {
        proof {
            reveal(rules::consume);
        }
        self.touch_ctl();
        let cond = Cond::Matches {
            src: ctl_reg(env.function),
            min: Some(code),
            max: Some(code),
            negated: false,
        };
        let clear = Inst::Const { dst: ctl_reg(env.function), value: rules::CTL_NORMAL };
        self.emit(Inst::Guarded { cond, inst: boxed(clear) });
    }

    // Frames.

    /// Everything this function might still need after a call comes back.
    pub(super) fn live_slots(&self, env: &Frame) -> (r: Vec<Slot>)
        ensures
            slots_view(r@) == rules::live_slots(env@, self@),
    {
        proof {
            reveal(Lowering::view);
        }
        let ghost locals = Seq::new(
            self@.initialised.len(),
            |i: int| rules::local_slot(env@.function, self@.initialised[i]),
        );
        let ghost temps = Seq::new(
            self@.used.len(),
            |i: int| rules::Slot::Score(self@.used[i]),
        );
        let ghost data = Seq::new(
            self@.used_data.len(),
            |i: int| rules::Slot::Data(self@.used_data[i]),
        );
        let mut out: Vec<Slot> = Vec::new();
        let mut i: usize = 0;
        proof {
            assert(slots_view(out@) =~= locals.take(0));
        }
        while i < self.initialised.len()
            invariant
                i <= self.initialised@.len(),
                self@.initialised == self.initialised@,
                locals == Seq::new(
                    self@.initialised.len(),
                    |i: int| rules::local_slot(env@.function, self@.initialised[i]),
                ),
                slots_view(out@) == locals.take(i as int),
            decreases self.initialised.len() - i,
        {
            let local = self.initialised[i];
            let one = if local_type(env.function, local).is_storage() {
                Slot::Data(local_path(env.function, local))
            } else {
                Slot::Score(local_reg(env.function, local))
            };
            let ghost before = slots_view(out@);
            let ghost shown = one@;
            out.push(one);
            proof {
                assert(slots_view(out@) =~= before.push(shown));
                assert(slots_view(out@) =~= locals.take(i + 1));
            }
            i += 1;
        }
        proof {
            assert(slots_view(out@) =~= locals + temps.take(0));
        }
        let mut i: usize = 0;
        while i < self.used.len()
            invariant
                i <= self.used@.len(),
                self@.used == regs_view(self.used@),
                temps == Seq::new(
                    self@.used.len(),
                    |i: int| rules::Slot::Score(self@.used[i]),
                ),
                slots_view(out@) == locals + temps.take(i as int),
            decreases self.used.len() - i,
        {
            let ghost before = slots_view(out@);
            let one = Slot::Score(self.used[i].copy());
            let ghost shown = one@;
            out.push(one);
            proof {
                assert(slots_view(out@) =~= before.push(shown));
                assert(slots_view(out@) =~= locals + temps.take(i + 1));
            }
            i += 1;
        }
        proof {
            assert(slots_view(out@) =~= locals + temps + data.take(0));
        }
        let mut i: usize = 0;
        while i < self.used_data.len()
            invariant
                i <= self.used_data@.len(),
                self@.used_data == texts(self.used_data@),
                data == Seq::new(
                    self@.used_data.len(),
                    |i: int| rules::Slot::Data(self@.used_data[i]),
                ),
                slots_view(out@) == locals + temps + data.take(i as int),
            decreases self.used_data.len() - i,
        {
            let ghost before = slots_view(out@);
            let one = Slot::Data(self.used_data[i].clone());
            let ghost shown = one@;
            out.push(one);
            proof {
                assert(slots_view(out@) =~= before.push(shown));
                assert(slots_view(out@) =~= locals + temps + data.take(i + 1));
            }
            i += 1;
        }
        proof {
            assert(slots_view(out@) =~= rules::live_slots(env@, self@));
        }
        out
    }

    /// Saves every slot into the top frame.
    pub(super) fn save_all(&mut self, slots: &Vec<Slot>)
        ensures
            final(self)@ == (Lx {
                insts: old(self)@.insts + rules::saves(slots_view(slots@)),
                ..old(self)@
            }),
    {
        let ghost start = self@;
        let ghost all = rules::saves(slots_view(slots@));
        let mut i: usize = 0;
        proof {
            assert(start.insts + all.take(0) =~= start.insts);
        }
        while i < slots.len()
            invariant
                i <= slots@.len(),
                all == rules::saves(slots_view(slots@)),
                self@ == (Lx { insts: start.insts + all.take(i as int), ..start }),
            decreases slots.len() - i,
        {
            proof {
                assert(all.take(i + 1) =~= all.take(i as int).push(all[i as int]));
                assert(start.insts + all.take(i + 1) =~= (start.insts + all.take(i as int)).push(
                    all[i as int],
                ));
            }
            let slot: u32 = i as u32;
            match &slots[i] {
                Slot::Score(reg) => self.emit(Inst::Save { reg: reg.copy(), slot }),
                Slot::Data(path) => self.emit(Inst::SaveData { path: path.clone(), slot }),
            }
            i += 1;
        }
        proof {
            assert(all.take(i as int) =~= all);
        }
    }

    /// Reads every slot back out of the top frame.
    pub(super) fn restore_all(&mut self, slots: &Vec<Slot>)
        ensures
            final(self)@ == (Lx {
                insts: old(self)@.insts + rules::restores(slots_view(slots@)),
                ..old(self)@
            }),
    {
        let ghost start = self@;
        let ghost all = rules::restores(slots_view(slots@));
        let mut i: usize = 0;
        proof {
            assert(start.insts + all.take(0) =~= start.insts);
        }
        while i < slots.len()
            invariant
                i <= slots@.len(),
                all == rules::restores(slots_view(slots@)),
                self@ == (Lx { insts: start.insts + all.take(i as int), ..start }),
            decreases slots.len() - i,
        {
            proof {
                assert(all.take(i + 1) =~= all.take(i as int).push(all[i as int]));
                assert(start.insts + all.take(i + 1) =~= (start.insts + all.take(i as int)).push(
                    all[i as int],
                ));
            }
            let slot: u32 = i as u32;
            match &slots[i] {
                Slot::Score(reg) => self.emit(Inst::Restore { reg: reg.copy(), slot }),
                Slot::Data(path) => self.emit(Inst::RestoreData { path: path.clone(), slot }),
            }
            i += 1;
        }
        proof {
            assert(all.take(i as int) =~= all);
        }
    }

    /// One function, and the functions split out of it.
    fn function(&mut self, env: &Frame) -> (r: Vec<Function>)
        requires
            env.wf(),
        ensures
            (final(self)@, functions_view(r@)) == rules::lower_function(env@, old(self)@),
    {
        proof {
            reveal(rules::lower_function);
        }
        self.fresh(env.function);
        self.stmts(env, &env.function.body);
        let ghost done = self@;
        proof {
            reveal(Lowering::view);
        }
        let mut insts: Vec<Inst> = Vec::new();
        if self.used_ctl {
            let clear = Inst::Const { dst: ctl_reg(env.function), value: rules::CTL_NORMAL };
            proof {
                clear.unfold();
            }
            insts.push(clear);
        }
        let ghost head = insts_view(insts@);
        let mut body: Vec<Inst> = Vec::new();
        std::mem::swap(&mut body, &mut self.insts);
        insts.append(&mut body);
        proof {
            assert(insts_view(insts@) =~= head + done.insts);
            if done.used_ctl {
                assert(head =~= seq![
                    model::Inst::Const(rules::ctl_reg(env@.function), rules::CTL_NORMAL),
                ]);
            } else {
                assert(head + done.insts =~= done.insts);
            }
        }
        let f = env.function;
        let ghost code = insts_view(insts@);
        let mut out: Vec<Function> = Vec::new();
        out.push(function_of(f.id, f.path.clone(), copy_attrs(&f.attrs), insts));
        let mut generated: Vec<Function> = Vec::new();
        std::mem::swap(&mut generated, &mut self.generated);
        out.append(&mut generated);
        proof {
            assert(self@.insts =~= seq![]);
            assert(self@.generated =~= seq![]);
            assert(functions_view(out@) =~= rules::lower_function(env@, old(self)@).1);
        }
        out
    }
}

fn function_of(id: crate::hir::FnId, path: String, attrs: Vec<Attr>, insts: Vec<Inst>) -> (r:
    Function)
    ensures
        r@ == (model::Function {
            id,
            path: path@,
            attrs: hir_attrs(attrs@),
            blocks: seq![model::Block { id: BlockId(0), insts: insts_view(insts@) }],
        }),
{
    let ghost code = insts_view(insts@);
    let mut blocks: Vec<Block> = Vec::new();
    blocks.push(Block { id: BlockId(0), insts });
    proof {
        assert(blocks_view(blocks@) =~= seq![model::Block { id: BlockId(0), insts: code }]);
    }
    Function { id, path, attrs, blocks }
}

fn copy_attrs(attrs: &Vec<Attr>) -> (r: Vec<Attr>)
    ensures
        hir_attrs(r@) == hir_attrs(attrs@),
{
    let mut out: Vec<Attr> = Vec::new();
    let mut i: usize = 0;
    while i < attrs.len()
        invariant
            i <= attrs@.len(),
            out@.len() == i,
            forall|k: int| 0 <= k < i ==> (#[trigger] out@[k])@ == attrs@[k]@,
        decreases attrs.len() - i,
    {
        let one = match &attrs[i] {
            Attr::Tick => Attr::Tick,
            Attr::Load => Attr::Load,
            Attr::Test => Attr::Test,
            Attr::Inline => Attr::Inline,
            Attr::NoInline => Attr::NoInline,
            Attr::Ctx(kinds) => {
                let mut copied: Vec<Ctx> = Vec::new();
                let mut k: usize = 0;
                while k < kinds.len()
                    invariant
                        k <= kinds@.len(),
                        copied@ == kinds@.take(k as int),
                    decreases kinds.len() - k,
                {
                    copied.push(kinds[k]);
                    proof {
                        assert(copied@ =~= kinds@.take(k + 1));
                    }
                    k += 1;
                }
                proof {
                    assert(copied@ =~= kinds@);
                }
                Attr::Ctx(copied)
            },
        };
        out.push(one);
        i += 1;
    }
    proof {
        assert(hir_attrs(out@) =~= hir_attrs(attrs@));
    }
    out
}

fn left_out(f: &HirFunction, debug: bool) -> (r: bool)
    ensures
        r == rules::left_out(f@, debug),
{
    if debug {
        return false;
    }
    let ghost all = hir_attrs(f.attrs@);
    let mut i: usize = 0;
    while i < f.attrs.len()
        invariant
            i <= f.attrs@.len(),
            !debug,
            all == hir_attrs(f.attrs@),
            crate::hir::rules::program::is_test(all, 0) == crate::hir::rules::program::is_test(
                all,
                i as int,
            ),
        decreases f.attrs.len() - i,
    {
        proof {
            assert(all[i as int] == f.attrs@[i as int]@);
        }
        match &f.attrs[i] {
            Attr::Test => {
                return true;
            },
            _ => {},
        }
        i += 1;
    }
    false
}

/// Lowers a program: its functions, and what of it cannot be lowered yet. A debug build
/// keeps tests, a release build leaves them out.
pub fn lower(hir: &Hir, debug: bool) -> (r: (Mir, Vec<SyntaxError>))
    ensures
        (r.0@, faults(r.1@)) == rules::lowered(hir@, debug),
{
    proof {
        reveal(rules::lowered);
    }
    let graph = Graph::new(&hir.functions);
    let mut cx = Lowering::start();
    let ghost start = cx@;
    let mut out: Vec<Function> = Vec::new();
    proof {
        assert(functions_view(out@) =~= seq![]);
    }
    let mut i: usize = 0;
    while i < hir.functions.len()
        invariant
            i <= hir.functions@.len(),
            graph.of(hir_functions(hir.functions@)),
            rules::lower_functions(hir@, debug, start, 0, seq![]) == rules::lower_functions(
                hir@,
                debug,
                cx@,
                i as int,
                functions_view(out@),
            ),
        decreases hir.functions.len() - i,
    {
        proof {
            reveal(rules::lower_functions);
            assert(hir@.functions[i as int] == hir.functions@[i as int]@);
        }
        if !left_out(&hir.functions[i], debug) {
            let env = Frame {
                functions: &hir.functions,
                types: &hir.types,
                function: &hir.functions[i],
                debug,
                graph: &graph,
            };
            let ghost before = functions_view(out@);
            let mut made = cx.function(&env);
            let ghost shown = functions_view(made@);
            out.append(&mut made);
            proof {
                assert(functions_view(out@) =~= before + shown);
            }
        }
        i += 1;
    }
    proof {
        reveal(rules::lower_functions);
        reveal(Lowering::view);
    }
    (Mir { functions: out }, cx.errs)
}

} // verus!

//! MIR to a datapack.
//!
//! Emitting builds the whole pack in memory. That keeps I/O at one edge, makes the output
//! testable without a filesystem, and means a failed compile never leaves a half-written
//! datapack in someone's world.

use vstd::prelude::*;

use crate::cost::{costs, is_cost_of, Cost};
use crate::hir::Attr;
use crate::map::{lemma_put_is_found, lemma_put_keeps_order, put, sorted, value_of, TextMap};
use crate::mir::model;
use crate::mir::{insts_view, Cmp, Cond, ExecuteAs, Function, Inst, Mir, Op, Reg, RegKind};
use crate::names::{
    self, storage_name, temp_objective_name, var_objective_name,
};
use crate::syntax::lexer::Span;
use crate::text::{
    cat2, cat3, cat4, cat5, cat6, cat7, chars, cut_once, digit_char, escape, escaped, int_text,
    nat_text, offset, own, push, show_i32, show_next, show_size, show_u32, show_u64, split_once, texts, to_digit_char, width,
};

pub mod laws;

verus! {

/// The datapack layout Minecraft 1.21+ expects. `function` is singular; it was
/// `functions` before 1.21.
pub const FUNCTION_DIR: &'static str = "function";

/// What a pack declares without a toolchain to say better. 48 is 1.21 and 1.21.1.
pub const PLACEHOLDER_PACK_FORMAT: u32 = 48;

#[derive(Debug, Clone, Copy, PartialEq, Eq, Structural)]
pub enum Profile {
    /// Source line comments, assertions kept, no optimisation. What you develop with.
    Debug,
    Release,
}

impl Default for Profile {
    fn default() -> (r: Profile)
        ensures
            r == Profile::Debug,
    {
        Profile::Debug
    }
}

#[derive(Debug, Clone)]
pub struct Options {
    pub pack_format: u32,
    pub description: String,
    pub profile: Profile,
    /// The source a debug build quotes line numbers from.
    pub source: Option<Source>,
}

#[derive(Debug, Clone)]
pub struct Source {
    pub path: String,
    pub text: String,
}

impl Default for Options {
    fn default() -> (r: Options)
        ensures
            r.pack_format == PLACEHOLDER_PACK_FORMAT,
            r.description@ == Seq::<char>::empty(),
            r.profile == Profile::Debug,
            r.source is None,
    {
        let description = String::new();
        proof {
            assert(description@ =~= seq![]);
        }
        Options {
            pack_format: PLACEHOLDER_PACK_FORMAT,
            description,
            profile: Profile::Debug,
            source: None,
        }
    }
}

/// A datapack held in memory.
#[derive(Debug, PartialEq, Eq)]
pub struct Datapack {
    /// Relative path to contents.
    pub files: TextMap,
    /// What each function costs to run.
    pub costs: Vec<Cost>,
    /// The ids of the `#[test]` functions.
    pub tests: Vec<String>,
}

impl Default for Datapack {
    /// A pack with nothing in it.
    fn default() -> (r: Datapack)
        ensures
            r.files@ == Seq::<(Seq<char>, Seq<char>)>::empty(),
            r.costs@ == Seq::<Cost>::empty(),
            r.tests@ == Seq::<String>::empty(),
    {
        Datapack { files: TextMap::new(), costs: Vec::new(), tests: Vec::new() }
    }
}

// ---------------------------------------------------------------------------
// What is written.
// ---------------------------------------------------------------------------

/// A register as a command names it: the holder and its objective.
pub open spec fn reg_text(ns: Seq<char>, reg: model::Reg) -> Seq<char> {
    reg.holder + " "@ + match reg.kind {
        RegKind::Var => var_objective_name(ns),
        RegKind::Temp => temp_objective_name(ns),
    }
}

pub open spec fn op_text(op: Op) -> Seq<char> {
    match op {
        Op::Assign => "="@,
        Op::Add => "+="@,
        Op::Sub => "-="@,
        Op::Mul => "*="@,
        Op::Div => "/="@,
        Op::Rem => "%="@,
        Op::Min => "<"@,
        Op::Max => ">"@,
    }
}

pub open spec fn sign_text(by: Cmp) -> Seq<char> {
    match by {
        Cmp::Lt => "<"@,
        Cmp::Le => "<="@,
        Cmp::Eq => "="@,
        Cmp::Ge => ">="@,
        Cmp::Gt => ">"@,
    }
}

pub open spec fn bound_text(bound: Option<i32>) -> Seq<char> {
    match bound {
        Some(n) => int_text(n as int),
        None => seq![],
    }
}

pub open spec fn if_text(negated: bool) -> Seq<char> {
    if negated {
        "unless"@
    } else {
        "if"@
    }
}

pub open spec fn score_text(
    ns: Seq<char>,
    lhs: model::Reg,
    by: Cmp,
    rhs: model::Reg,
    negated: bool,
) -> Seq<char> {
    if_text(negated) + " score "@ + reg_text(ns, lhs) + " "@ + sign_text(by) + " "@ + reg_text(
        ns,
        rhs,
    )
}

pub open spec fn matches_text(
    ns: Seq<char>,
    src: model::Reg,
    min: Option<i32>,
    max: Option<i32>,
    negated: bool,
) -> Seq<char> {
    if_text(negated) + " score "@ + reg_text(ns, src) + " matches "@ + bound_text(min) + ".."@
        + bound_text(max)
}

pub open spec fn data_text(ns: Seq<char>, path: Seq<char>, filter: Seq<char>, negated: bool) -> Seq<
    char,
> {
    if_text(negated) + " data storage "@ + storage_name(ns) + " "@ + path + filter
}

pub open spec fn cond_text(ns: Seq<char>, cond: model::Cond) -> Seq<char> {
    match cond {
        model::Cond::Score(lhs, by, rhs, negated) => score_text(ns, lhs, by, rhs, negated),
        model::Cond::Matches(src, min, max, negated) => matches_text(ns, src, min, max, negated),
        model::Cond::Data(path, filter, negated) => data_text(ns, path, filter, negated),
    }
}

/// A path in the pack's own storage, as a command names it.
pub open spec fn at_text(ns: Seq<char>, path: Seq<char>) -> Seq<char> {
    "storage "@ + storage_name(ns) + " "@ + path
}

/// Where the top frame keeps a slot.
pub open spec fn slot_path(slot: u32) -> Seq<char> {
    "mw.stack[-1].s"@ + nat_text(slot as nat)
}

/// The digits of `rem / scale` after the point, at most `n` of them.
pub open spec fn decimals(rem: nat, scale: nat, n: nat) -> Seq<char>
    decreases n,
{
    if n == 0 || rem == 0 || scale == 0 {
        seq![]
    } else {
        seq![digit_char((rem * 10 / scale) as int)] + decimals(
            (rem * 10 % scale) as nat,
            scale,
            (n - 1) as nat,
        )
    }
}

/// How many digits of a fraction are written.
pub const PRECISION: u32 = 18;

/// `1 / scale`, as a command takes it.
pub open spec fn reciprocal(scale: u32) -> Seq<char> {
    if scale <= 1 {
        "1"@
    } else {
        "0."@ + decimals(1, scale as nat, PRECISION as nat)
    }
}

/// The clauses that rule out the tags from `i` on.
pub open spec fn otherwise_text(ns: Seq<char>, path: Seq<char>, tags: Seq<Seq<char>>, i: int) -> Seq<
    char,
>
    decreases i,
{
    if i <= 0 || i > tags.len() {
        seq![]
    } else {
        otherwise_text(ns, path, tags, i - 1) + (" "@ + data_text(
            ns,
            path,
            "{tag:\""@ + tags[i - 1] + "\"}"@,
            true,
        ))
    }
}

/// The bounds of a slice, as far as they are needed.
pub open spec fn slice_text(start: Option<i32>, end: Option<i32>) -> Seq<char> {
    match (start, end) {
        (None, None) => seq![],
        (Some(a), None) => " "@ + int_text(a as int),
        (None, Some(b)) => " 0 "@ + int_text(b as int),
        (Some(a), Some(b)) => " "@ + int_text(a as int) + " "@ + int_text(b as int),
    }
}

/// One instruction as one command.
#[verifier::opaque]
pub open spec fn inst_text(ns: Seq<char>, inst: model::Inst) -> Seq<char>
    decreases inst,
{
    match inst {
        model::Inst::Raw(text, _) => text,
        model::Inst::Const(dst, n) => "scoreboard players set "@ + reg_text(ns, dst) + " "@
            + int_text(n as int),
        model::Inst::AddConst(dst, n) => if n >= 0 {
            "scoreboard players add "@ + reg_text(ns, dst) + " "@ + int_text(n as int)
        } else {
            "scoreboard players remove "@ + reg_text(ns, dst) + " "@ + nat_text((-n) as nat)
        },
        model::Inst::Op(dst, op, src) => "scoreboard players operation "@ + reg_text(ns, dst)
            + " "@ + op_text(op) + " "@ + reg_text(ns, src),
        model::Inst::Cmp(dst, by, negated, lhs, rhs) => "execute store success score "@
            + reg_text(ns, dst) + " "@ + score_text(ns, lhs, by, rhs, negated),
        model::Inst::Matches(dst, src, min, max, negated) => "execute store success score "@
            + reg_text(ns, dst) + " "@ + matches_text(ns, src, min, max, negated),
        model::Inst::Call(path) => "function "@ + path,
        model::Inst::StoreResult(dst, inst) => "execute store result score "@ + reg_text(ns, dst)
            + " run "@ + inst_text(ns, *inst),
        model::Inst::Get(src) => "scoreboard players get "@ + reg_text(ns, src),
        model::Inst::ReturnRun(inst) => "return run "@ + inst_text(ns, *inst),
        model::Inst::PushFrame => "data modify "@ + at_text(ns, "mw.stack"@) + " append value {}"@,
        model::Inst::PopFrame => "data remove "@ + at_text(ns, "mw.stack[-1]"@),
        model::Inst::Save(reg, slot) => "execute store result "@ + at_text(ns, slot_path(slot))
            + " int 1 run scoreboard players get "@ + reg_text(ns, reg),
        model::Inst::Restore(reg, slot) => "execute store result score "@ + reg_text(ns, reg)
            + " run data get "@ + at_text(ns, slot_path(slot)),
        model::Inst::SaveData(path, slot) => "data modify "@ + at_text(ns, slot_path(slot))
            + " set from "@ + at_text(ns, path),
        model::Inst::RestoreData(path, slot) => "data modify "@ + at_text(ns, path)
            + " set from "@ + at_text(ns, slot_path(slot)),
        model::Inst::Return(n) => "return "@ + int_text(n as int),
        model::Inst::SetValue(path, value) => "data modify "@ + at_text(ns, path)
            + " set value "@ + value,
        model::Inst::CopyData(dst, src) => "data modify "@ + at_text(ns, dst) + " set from "@
            + at_text(ns, src),
        model::Inst::GetData(path) => "data get "@ + at_text(ns, path),
        model::Inst::GetScaled(path, scale) => "data get "@ + at_text(ns, path) + " "@ + nat_text(
            scale as nat,
        ),
        model::Inst::RemoveData(path) => "data remove "@ + at_text(ns, path),
        model::Inst::AppendValue(path, value) => "data modify "@ + at_text(ns, path)
            + " append value "@ + value,
        model::Inst::AppendFrom(dst, src) => "data modify "@ + at_text(ns, dst)
            + " append from "@ + at_text(ns, src),
        model::Inst::CallWithArgs(path) => "function "@ + path + " with "@ + at_text(
            ns,
            "mw.args"@,
        ),
        model::Inst::Macro(inst) => "$"@ + inst_text(ns, *inst),
        model::Inst::StoreData(path, tag, inst) => "execute store result "@ + at_text(ns, path)
            + " "@ + tag + " 1 run "@ + inst_text(ns, *inst),
        model::Inst::StoreScaled(path, tag, scale, inst) => "execute store result "@ + at_text(
            ns,
            path,
        ) + " "@ + tag + " "@ + reciprocal(scale) + " run "@ + inst_text(ns, *inst),
        model::Inst::StoreCond(dst, cond) => "execute store success score "@ + reg_text(ns, dst)
            + " "@ + cond_text(ns, cond),
        model::Inst::SetString(dst, src, start, end) => "data modify "@ + at_text(ns, dst)
            + " set string "@ + at_text(ns, src) + slice_text(start, end),
        model::Inst::Guarded(cond, inst) => "execute "@ + cond_text(ns, cond) + " run "@
            + inst_text(ns, *inst),
        model::Inst::Otherwise(path, tags, inst) => "execute"@ + otherwise_text(
            ns,
            path,
            tags,
            tags.len() as int,
        ) + " run "@ + inst_text(ns, *inst),
        model::Inst::Context(clause, inst) => "execute "@ + (match clause {
            model::ExecuteAs::As(selector) => "as "@ + selector,
            model::ExecuteAs::At(selector) => "at "@ + selector,
        }) + " run "@ + inst_text(ns, *inst),
    }
}

/// Where the command an instruction runs was written, if it was written.
pub open spec fn written_at(inst: model::Inst) -> Option<Span>
    decreases inst,
{
    match inst {
        model::Inst::Raw(_, span) => Some(span),
        model::Inst::Guarded(_, inst) => written_at(*inst),
        model::Inst::Otherwise(_, _, inst) => written_at(*inst),
        model::Inst::Context(_, inst) => written_at(*inst),
        _ => None,
    }
}

/// The line breaks before the byte `at` among the first `i` characters.
pub open spec fn breaks_before(s: Seq<char>, at: nat, i: int) -> nat
    decreases i,
{
    if i <= 0 || i > s.len() {
        0
    } else {
        breaks_before(s, at, i - 1) + if s[i - 1] == '\n' && offset(s, i - 1) < at {
            1nat
        } else {
            0nat
        }
    }
}

/// The line a byte is on, counting from one.
pub open spec fn line_at(s: Seq<char>, at: nat) -> nat {
    breaks_before(s, at, s.len() as int) + 1
}

/// Lines count from one, and a later byte is never on an earlier line.
pub proof fn lemma_lines_go_forward(s: Seq<char>, a: nat, b: nat)
    requires
        a <= b,
    ensures
        1 <= line_at(s, a) <= line_at(s, b),
{
    lemma_breaks_go_forward(s, a, b, s.len() as int);
}

proof fn lemma_breaks_go_forward(s: Seq<char>, a: nat, b: nat, i: int)
    requires
        a <= b,
    ensures
        breaks_before(s, a, i) <= breaks_before(s, b, i),
    decreases i,
{
    if 0 < i <= s.len() {
        lemma_breaks_go_forward(s, a, b, i - 1);
    }
}

/// `# src/main.mwl:12`, in debug builds only: the generated output has to be traceable
/// back to the line that produced it.
pub open spec fn source_comment(options: Options, inst: model::Inst) -> Seq<char> {
    match (options.profile, options.source, written_at(inst)) {
        (Profile::Debug, Some(source), Some(span)) => "# "@ + source.path@ + ":"@ + nat_text(
            line_at(source.text@, span.start as nat),
        ) + "\n"@,
        _ => seq![],
    }
}

/// The lines of the first `i` instructions.
pub open spec fn insts_text(
    options: Options,
    ns: Seq<char>,
    insts: Seq<model::Inst>,
    i: int,
) -> Seq<char>
    decreases i,
{
    if i <= 0 || i > insts.len() {
        seq![]
    } else {
        insts_text(options, ns, insts, i - 1) + (source_comment(options, insts[i - 1])
            + inst_text(ns, insts[i - 1]) + "\n"@)
    }
}

pub open spec fn blocks_text(
    options: Options,
    ns: Seq<char>,
    blocks: Seq<model::Block>,
    i: int,
) -> Seq<char>
    decreases i,
{
    if i <= 0 || i > blocks.len() {
        seq![]
    } else {
        blocks_text(options, ns, blocks, i - 1) + insts_text(
            options,
            ns,
            blocks[i - 1].insts,
            blocks[i - 1].insts.len() as int,
        )
    }
}

/// `myns:combat/apply` into its namespace and path.
pub open spec fn id_parts(id: Seq<char>) -> (Seq<char>, Seq<char>) {
    match split_once(id, ':') {
        Some(parts) => parts,
        None => ("minecraft"@, id),
    }
}

/// The text of a function's file.
pub open spec fn function_text(options: Options, f: model::Function) -> Seq<char> {
    blocks_text(options, id_parts(f.path).0, f.blocks, f.blocks.len() as int)
}

/// Where a function's file is.
pub open spec fn function_file(id: Seq<char>) -> Seq<char> {
    "data/"@ + id_parts(id).0 + "/function/"@ + id_parts(id).1 + ".mcfunction"@
}

/// The metadata every pack has to have.
pub open spec fn mcmeta_text(options: Options) -> Seq<char> {
    "{\n  \"pack\": {\n    \"pack_format\": "@ + nat_text(options.pack_format as nat)
        + ",\n    \"description\": \""@ + escape(options.description@) + "\"\n  }\n}\n"@
}

/// The files of the first `i` functions, and the metadata.
pub open spec fn files_of(options: Options, functions: Seq<model::Function>, i: int) -> Seq<
    (Seq<char>, Seq<char>),
>
    decreases i,
{
    if i <= 0 || i > functions.len() {
        put(seq![], "pack.mcmeta"@, mcmeta_text(options))
    } else {
        put(
            files_of(options, functions, i - 1),
            function_file(functions[i - 1].path),
            function_text(options, functions[i - 1]),
        )
    }
}

pub open spec fn is_test(f: model::Function) -> bool {
    crate::hir::rules::program::is_test(f.attrs, 0)
}

/// The ids of the `#[test]` functions among the first `i`.
pub open spec fn tests_of(functions: Seq<model::Function>, i: int) -> Seq<Seq<char>>
    decreases i,
{
    if i <= 0 || i > functions.len() {
        seq![]
    } else if is_test(functions[i - 1]) {
        tests_of(functions, i - 1).push(functions[i - 1].path)
    } else {
        tests_of(functions, i - 1)
    }
}

// ---------------------------------------------------------------------------
// What holds of every pack.
// ---------------------------------------------------------------------------

/// The files of a pack are in order, each once.
pub proof fn lemma_files_in_order(options: Options, functions: Seq<model::Function>, i: int)
    ensures
        sorted(files_of(options, functions, i)),
    decreases i,
{
    if i <= 0 || i > functions.len() {
        lemma_put_keeps_order(seq![], "pack.mcmeta"@, mcmeta_text(options));
    } else {
        lemma_files_in_order(options, functions, i - 1);
        lemma_put_keeps_order(
            files_of(options, functions, i - 1),
            function_file(functions[i - 1].path),
            function_text(options, functions[i - 1]),
        );
    }
}

/// No function's file is the metadata.
proof fn lemma_file_is_not_metadata(id: Seq<char>)
    ensures
        function_file(id) != "pack.mcmeta"@,
{
    reveal_strlit("data/");
    reveal_strlit("pack.mcmeta");
    assert(function_file(id)[0] == 'd');
    assert("pack.mcmeta"@[0] == 'p');
}

/// Every pack has its metadata.
pub proof fn lemma_pack_has_metadata(options: Options, functions: Seq<model::Function>, i: int)
    ensures
        value_of(files_of(options, functions, i), "pack.mcmeta"@) == Some(mcmeta_text(options)),
    decreases i,
{
    if i <= 0 || i > functions.len() {
        lemma_put_is_found(seq![], "pack.mcmeta"@, mcmeta_text(options), "pack.mcmeta"@);
    } else {
        lemma_pack_has_metadata(options, functions, i - 1);
        lemma_files_in_order(options, functions, i - 1);
        lemma_file_is_not_metadata(functions[i - 1].path);
        lemma_put_is_found(
            files_of(options, functions, i - 1),
            function_file(functions[i - 1].path),
            function_text(options, functions[i - 1]),
            "pack.mcmeta"@,
        );
    }
}

/// Every function has its file, with the text of the last function that lands there.
pub proof fn lemma_pack_has_every_function(
    options: Options,
    functions: Seq<model::Function>,
    i: int,
    k: int,
)
    requires
        0 <= k < i <= functions.len(),
        forall|j: int|
            k < j < i ==> function_file((#[trigger] functions[j]).path) != function_file(
                functions[k].path,
            ),
    ensures
        value_of(files_of(options, functions, i), function_file(functions[k].path)) == Some(
            function_text(options, functions[k]),
        ),
    decreases i,
{
    lemma_files_in_order(options, functions, i - 1);
    lemma_put_is_found(
        files_of(options, functions, i - 1),
        function_file(functions[i - 1].path),
        function_text(options, functions[i - 1]),
        function_file(functions[k].path),
    );
    if k < i - 1 {
        lemma_pack_has_every_function(options, functions, i - 1, k);
    }
}

/// A release build quotes nothing of the source: its files are the same without one.
pub proof fn lemma_release_quotes_nothing(options: Options, bare: Options, f: model::Function)
    requires
        options.profile == Profile::Release,
        bare == (Options { source: None, ..options }),
    ensures
        function_text(options, f) == function_text(bare, f),
{
    let ns = id_parts(f.path).0;
    lemma_blocks_quote_nothing(options, bare, ns, f.blocks, f.blocks.len() as int);
}

proof fn lemma_blocks_quote_nothing(
    options: Options,
    bare: Options,
    ns: Seq<char>,
    blocks: Seq<model::Block>,
    i: int,
)
    requires
        options.profile == Profile::Release,
        bare.profile == Profile::Release,
    ensures
        blocks_text(options, ns, blocks, i) == blocks_text(bare, ns, blocks, i),
    decreases i,
{
    if 0 < i <= blocks.len() {
        lemma_blocks_quote_nothing(options, bare, ns, blocks, i - 1);
        lemma_insts_quote_nothing(
            options,
            bare,
            ns,
            blocks[i - 1].insts,
            blocks[i - 1].insts.len() as int,
        );
    }
}

proof fn lemma_insts_quote_nothing(
    options: Options,
    bare: Options,
    ns: Seq<char>,
    insts: Seq<model::Inst>,
    i: int,
)
    requires
        options.profile == Profile::Release,
        bare.profile == Profile::Release,
    ensures
        insts_text(options, ns, insts, i) == insts_text(bare, ns, insts, i),
    decreases i,
{
    if 0 < i <= insts.len() {
        lemma_insts_quote_nothing(options, bare, ns, insts, i - 1);
    }
}

// ---------------------------------------------------------------------------
// Writing it.
// ---------------------------------------------------------------------------

fn show_reg(ns: &str, reg: &Reg) -> (r: String)
    ensures
        r@ == reg_text(ns@, reg@),
{
    let objective = match reg.kind {
        RegKind::Var => names::var_objective(ns),
        RegKind::Temp => names::temp_objective(ns),
    };
    cat3(reg.holder.as_str(), " ", objective.as_str())
}

fn show_op(op: Op) -> (r: &'static str)
    ensures
        r@ == op_text(op),
{
    match op {
        Op::Assign => "=",
        Op::Add => "+=",
        Op::Sub => "-=",
        Op::Mul => "*=",
        Op::Div => "/=",
        Op::Rem => "%=",
        Op::Min => "<",
        Op::Max => ">",
    }
}

fn show_sign(by: Cmp) -> (r: &'static str)
    ensures
        r@ == sign_text(by),
{
    match by {
        Cmp::Lt => "<",
        Cmp::Le => "<=",
        Cmp::Eq => "=",
        Cmp::Ge => ">=",
        Cmp::Gt => ">",
    }
}

fn show_bound(bound: Option<i32>) -> (r: String)
    ensures
        r@ == bound_text(bound),
{
    match bound {
        Some(n) => show_i32(n),
        None => {
            let r = String::new();
            proof {
                assert(r@ =~= seq![]);
            }
            r
        },
    }
}

fn show_if(negated: bool) -> (r: &'static str)
    ensures
        r@ == if_text(negated),
{
    if negated {
        "unless"
    } else {
        "if"
    }
}

fn show_score(ns: &str, lhs: &Reg, by: Cmp, rhs: &Reg, negated: bool) -> (r: String)
    ensures
        r@ == score_text(ns@, lhs@, by, rhs@, negated),
{
    cat7(
        show_if(negated),
        " score ",
        show_reg(ns, lhs).as_str(),
        " ",
        show_sign(by),
        " ",
        show_reg(ns, rhs).as_str(),
    )
}

fn show_matches(ns: &str, src: &Reg, min: Option<i32>, max: Option<i32>, negated: bool) -> (r:
    String)
    ensures
        r@ == matches_text(ns@, src@, min, max, negated),
{
    cat7(
        show_if(negated),
        " score ",
        show_reg(ns, src).as_str(),
        " matches ",
        show_bound(min).as_str(),
        "..",
        show_bound(max).as_str(),
    )
}

fn show_data(ns: &str, path: &str, filter: &str, negated: bool) -> (r: String)
    ensures
        r@ == data_text(ns@, path@, filter@, negated),
{
    cat6(
        show_if(negated),
        " data storage ",
        names::storage(ns).as_str(),
        " ",
        path,
        filter,
    )
}

fn show_cond(ns: &str, cond: &Cond) -> (r: String)
    ensures
        r@ == cond_text(ns@, cond@),
{
    match cond {
        Cond::Score { lhs, cmp, rhs, negated } => show_score(ns, lhs, *cmp, rhs, *negated),
        Cond::Matches { src, min, max, negated } => show_matches(ns, src, *min, *max, *negated),
        Cond::Data { path, filter, negated } => show_data(
            ns,
            path.as_str(),
            filter.as_str(),
            *negated,
        ),
    }
}

fn show_at(ns: &str, path: &str) -> (r: String)
    ensures
        r@ == at_text(ns@, path@),
{
    cat4("storage ", names::storage(ns).as_str(), " ", path)
}

fn show_slot(slot: u32) -> (r: String)
    ensures
        r@ == slot_path(slot),
{
    cat2("mw.stack[-1].s", show_u64(slot as u64).as_str())
}

fn show_decimals(scale: u32) -> (r: String)
    requires
        scale > 0,
    ensures
        r@ == decimals(1, scale as nat, PRECISION as nat),
{
    let mut out = String::new();
    let mut rem: u64 = 1;
    let mut n: u32 = PRECISION;
    proof {
        assert(out@ + decimals(1, scale as nat, n as nat) =~= decimals(
            1,
            scale as nat,
            PRECISION as nat,
        ));
    }
    while n > 0 && rem > 0
        invariant
            scale > 0,
            rem <= 0xffff_ffff,
            out@ + decimals(rem as nat, scale as nat, n as nat) == decimals(
                1,
                scale as nat,
                PRECISION as nat,
            ),
        decreases n,
    {
        let ghost before = out@;
        let ghost rest = decimals(
            (rem * 10 % (scale as int)) as nat,
            scale as nat,
            (n - 1) as nat,
        );
        let digit: u64 = rem * 10 / (scale as u64);
        let c = if digit < 10 {
            to_digit_char(digit)
        } else {
            '0'
        };
        push(&mut out, c);
        proof {
            assert(c == digit_char(digit as int));
            assert(out@ + rest =~= before + (seq![c] + rest));
        }
        rem = rem * 10 % (scale as u64);
        n -= 1;
    }
    proof {
        assert(out@ + decimals(rem as nat, scale as nat, n as nat) =~= out@);
    }
    out
}

fn show_reciprocal(scale: u32) -> (r: String)
    ensures
        r@ == reciprocal(scale),
{
    if scale <= 1 {
        own("1")
    } else {
        cat2("0.", show_decimals(scale).as_str())
    }
}

fn show_otherwise(ns: &str, path: &str, tags: &Vec<String>) -> (r: String)
    ensures
        r@ == otherwise_text(ns@, path@, texts(tags@), tags@.len() as int),
{
    let ghost all = texts(tags@);
    let mut out = String::new();
    proof {
        assert(out@ =~= seq![]);
    }
    let mut i: usize = 0;
    while i < tags.len()
        invariant
            i <= tags@.len(),
            all == texts(tags@),
            out@ == otherwise_text(ns@, path@, all, i as int),
        decreases tags.len() - i,
    {
        let filter = cat3("{tag:\"", tags[i].as_str(), "\"}");
        let clause = cat2(" ", show_data(ns, path, filter.as_str(), true).as_str());
        out.append(clause.as_str());
        i += 1;
    }
    out
}

fn show_slice(start: Option<i32>, end: Option<i32>) -> (r: String)
    ensures
        r@ == slice_text(start, end),
{
    match (start, end) {
        (None, None) => {
            let r = String::new();
            proof {
                assert(r@ =~= seq![]);
            }
            r
        },
        (Some(a), None) => cat2(" ", show_i32(a).as_str()),
        (None, Some(b)) => cat2(" 0 ", show_i32(b).as_str()),
        (Some(a), Some(b)) => cat4(" ", show_i32(a).as_str(), " ", show_i32(b).as_str()),
    }
}

/// One instruction as one command.
#[verifier::spinoff_prover]
fn show_inst(ns: &str, inst: &Inst) -> (r: String)
    ensures
        r@ == inst_text(ns@, inst@),
    decreases inst,
{
    proof {
        reveal(inst_text);
        inst.unfold();
    }
    match inst {
        Inst::Raw { text, .. } => text.clone(),
        Inst::Const { dst, value } => cat4(
            "scoreboard players set ",
            show_reg(ns, dst).as_str(),
            " ",
            show_i32(*value).as_str(),
        ),
        Inst::AddConst { dst, value } => {
            let n: i32 = *value;
            if n >= 0 {
                cat4(
                    "scoreboard players add ",
                    show_reg(ns, dst).as_str(),
                    " ",
                    show_i32(n).as_str(),
                )
            } else {
                cat4(
                    "scoreboard players remove ",
                    show_reg(ns, dst).as_str(),
                    " ",
                    show_size(n).as_str(),
                )
            }
        },
        Inst::Op { dst, op, src } => cat6(
            "scoreboard players operation ",
            show_reg(ns, dst).as_str(),
            " ",
            show_op(*op),
            " ",
            show_reg(ns, src).as_str(),
        ),
        Inst::Cmp { dst, cmp, negated, lhs, rhs } => cat4(
            "execute store success score ",
            show_reg(ns, dst).as_str(),
            " ",
            show_score(ns, lhs, *cmp, rhs, *negated).as_str(),
        ),
        Inst::Matches { dst, src, min, max, negated } => cat4(
            "execute store success score ",
            show_reg(ns, dst).as_str(),
            " ",
            show_matches(ns, src, *min, *max, *negated).as_str(),
        ),
        Inst::Call { path } => cat2("function ", path.as_str()),
        Inst::StoreResult { dst, inst } => cat4(
            "execute store result score ",
            show_reg(ns, dst).as_str(),
            " run ",
            show_inst(ns, inst).as_str(),
        ),
        Inst::Get { src } => cat2("scoreboard players get ", show_reg(ns, src).as_str()),
        Inst::ReturnRun { inst } => cat2("return run ", show_inst(ns, inst).as_str()),
        Inst::PushFrame => cat3(
            "data modify ",
            show_at(ns, "mw.stack").as_str(),
            " append value {}",
        ),
        Inst::PopFrame => cat2("data remove ", show_at(ns, "mw.stack[-1]").as_str()),
        Inst::Save { reg, slot } => cat4(
            "execute store result ",
            show_at(ns, show_slot(*slot).as_str()).as_str(),
            " int 1 run scoreboard players get ",
            show_reg(ns, reg).as_str(),
        ),
        Inst::Restore { reg, slot } => cat4(
            "execute store result score ",
            show_reg(ns, reg).as_str(),
            " run data get ",
            show_at(ns, show_slot(*slot).as_str()).as_str(),
        ),
        Inst::SaveData { path, slot } => cat4(
            "data modify ",
            show_at(ns, show_slot(*slot).as_str()).as_str(),
            " set from ",
            show_at(ns, path.as_str()).as_str(),
        ),
        Inst::RestoreData { path, slot } => cat4(
            "data modify ",
            show_at(ns, path.as_str()).as_str(),
            " set from ",
            show_at(ns, show_slot(*slot).as_str()).as_str(),
        ),
        Inst::Return { value } => cat2("return ", show_i32(*value).as_str()),
        Inst::SetValue { path, value } => cat4(
            "data modify ",
            show_at(ns, path.as_str()).as_str(),
            " set value ",
            value.as_str(),
        ),
        Inst::CopyData { dst, src } => cat4(
            "data modify ",
            show_at(ns, dst.as_str()).as_str(),
            " set from ",
            show_at(ns, src.as_str()).as_str(),
        ),
        Inst::GetData { path } => cat2("data get ", show_at(ns, path.as_str()).as_str()),
        Inst::GetScaled { path, scale } => cat4(
            "data get ",
            show_at(ns, path.as_str()).as_str(),
            " ",
            show_u32(*scale).as_str(),
        ),
        Inst::RemoveData { path } => cat2("data remove ", show_at(ns, path.as_str()).as_str()),
        Inst::AppendValue { path, value } => cat4(
            "data modify ",
            show_at(ns, path.as_str()).as_str(),
            " append value ",
            value.as_str(),
        ),
        Inst::AppendFrom { dst, src } => cat4(
            "data modify ",
            show_at(ns, dst.as_str()).as_str(),
            " append from ",
            show_at(ns, src.as_str()).as_str(),
        ),
        Inst::CallWithArgs { path } => cat4(
            "function ",
            path.as_str(),
            " with ",
            show_at(ns, "mw.args").as_str(),
        ),
        Inst::Macro { inst } => cat2("$", show_inst(ns, inst).as_str()),
        Inst::StoreData { path, tag, inst } => cat6(
            "execute store result ",
            show_at(ns, path.as_str()).as_str(),
            " ",
            tag,
            " 1 run ",
            show_inst(ns, inst).as_str(),
        ),
        Inst::StoreScaled { path, tag, scale, inst } => {
            let mut r = cat6(
                "execute store result ",
                show_at(ns, path.as_str()).as_str(),
                " ",
                tag,
                " ",
                show_reciprocal(*scale).as_str(),
            );
            r.append(" run ");
            r.append(show_inst(ns, inst).as_str());
            r
        },
        Inst::StoreCond { dst, cond } => cat4(
            "execute store success score ",
            show_reg(ns, dst).as_str(),
            " ",
            show_cond(ns, cond).as_str(),
        ),
        Inst::SetString { dst, src, start, end } => cat5(
            "data modify ",
            show_at(ns, dst.as_str()).as_str(),
            " set string ",
            show_at(ns, src.as_str()).as_str(),
            show_slice(*start, *end).as_str(),
        ),
        Inst::Guarded { cond, inst } => cat4(
            "execute ",
            show_cond(ns, cond).as_str(),
            " run ",
            show_inst(ns, inst).as_str(),
        ),
        Inst::Otherwise { path, tags, inst } => cat4(
            "execute",
            show_otherwise(ns, path.as_str(), tags).as_str(),
            " run ",
            show_inst(ns, inst).as_str(),
        ),
        Inst::Context { clause, inst } => {
            let run_as = match clause {
                ExecuteAs::As(selector) => cat2("as ", selector.as_str()),
                ExecuteAs::At(selector) => cat2("at ", selector.as_str()),
            };
            cat4("execute ", run_as.as_str(), " run ", show_inst(ns, inst).as_str())
        },
    }
}

fn find_written(inst: &Inst) -> (r: Option<Span>)
    ensures
        r == written_at(inst@),
    decreases inst,
{
    proof {
        inst.unfold();
    }
    match inst {
        Inst::Raw { span, .. } => Some(*span),
        Inst::Guarded { inst, .. } => find_written(inst),
        Inst::Otherwise { inst, .. } => find_written(inst),
        Inst::Context { inst, .. } => find_written(inst),
        _ => None,
    }
}

proof fn lemma_no_breaks_past(s: Seq<char>, at: nat, from: int, i: int)
    requires
        0 <= from <= i <= s.len(),
        offset(s, from) >= at,
    ensures
        breaks_before(s, at, i) == breaks_before(s, at, from),
        offset(s, i) >= at,
    decreases i - from,
{
    if from < i {
        lemma_no_breaks_past(s, at, from, i - 1);
    }
}

/// The line a byte is on, counting from one. A byte past the end is on the last line.
pub fn line_of(text: &str, at: usize) -> (r: u64)
    requires
        text@.len() < u64::MAX,
    ensures
        r == line_at(text@, at as nat),
{
    count_breaks(text, at) + 1
}

/// The line breaks before a byte.
fn count_breaks(text: &str, at: usize) -> (r: u64)
    ensures
        r + 1 == line_at(text@, at as nat),
        r <= text@.len(),
{
    let v = chars(text);
    let mut breaks: u64 = 0;
    let mut pos: usize = 0;
    let mut i: usize = 0;
    while i < v.len() && pos < at
        invariant
            i <= v@.len(),
            v@ == text@,
            pos == offset(text@, i as int) || (pos == at && offset(text@, i as int) >= at),
            breaks <= i,
            breaks == breaks_before(text@, at as nat, i as int),
        decreases v.len() - i,
    {
        if v[i] == '\n' {
            breaks += 1;
        }
        let step: usize = char_width(v[i]);
        if at - pos <= step {
            pos = at;
        } else {
            pos += step;
        }
        i += 1;
    }
    proof {
        if i < v@.len() {
            lemma_no_breaks_past(text@, at as nat, i as int, v@.len() as int);
        }
    }
    breaks
}

fn char_width(c: char) -> (r: usize)
    ensures
        r == width(c),
        1 <= r <= 4,
{
    if (c as u32) < 0x80 {
        1
    } else if (c as u32) < 0x800 {
        2
    } else if (c as u32) < 0x10000 {
        3
    } else {
        4
    }
}

fn show_comment(options: &Options, inst: &Inst) -> (r: String)
    ensures
        r@ == source_comment(*options, inst@),
{
    if options.profile == Profile::Debug {
        match &options.source {
            Some(source) => match find_written(inst) {
                Some(span) => {
                    let breaks = count_breaks(source.text.as_str(), span.start);
                    return cat5(
                        "# ",
                        source.path.as_str(),
                        ":",
                        show_next(breaks).as_str(),
                        "\n",
                    );
                },
                None => {},
            },
            None => {},
        }
    }
    let r = String::new();
    proof {
        assert(r@ =~= seq![]);
    }
    r
}

/// `myns:combat/apply` into its namespace and path.
fn split_id(id: &str) -> (r: (String, String))
    ensures
        (r.0@, r.1@) == id_parts(id@),
{
    match cut_once(id, ':') {
        Some(parts) => parts,
        None => (own("minecraft"), own(id)),
    }
}

fn show_function(options: &Options, f: &Function) -> (r: String)
    ensures
        r@ == function_text(*options, f@),
{
    let (ns, _) = split_id(f.path.as_str());
    let mut out = String::new();
    proof {
        assert(out@ =~= seq![]);
    }
    let mut b: usize = 0;
    while b < f.blocks.len()
        invariant
            b <= f.blocks@.len(),
            out@ == blocks_text(*options, ns@, f@.blocks, b as int),
        decreases f.blocks.len() - b,
    {
        proof {
            assert(f@.blocks[b as int] == f.blocks@[b as int]@);
        }
        let insts = &f.blocks[b].insts;
        let ghost shown = insts_view(insts@);
        let ghost before = out@;
        let mut i: usize = 0;
        proof {
            assert(before + insts_text(*options, ns@, shown, 0) =~= before);
        }
        while i < insts.len()
            invariant
                i <= insts@.len(),
                shown == insts_view(insts@),
                out@ == before + insts_text(*options, ns@, shown, i as int),
            decreases insts.len() - i,
        {
            proof {
                assert(shown[i as int] == insts@[i as int]@);
            }
            let line = cat3(
                show_comment(options, &insts[i]).as_str(),
                show_inst(ns.as_str(), &insts[i]).as_str(),
                "\n",
            );
            out.append(line.as_str());
            proof {
                assert(out@ =~= before + insts_text(*options, ns@, shown, i + 1));
            }
            i += 1;
        }
        b += 1;
    }
    out
}

fn show_mcmeta(options: &Options) -> (r: String)
    ensures
        r@ == mcmeta_text(*options),
{
    cat5(
        "{\n  \"pack\": {\n    \"pack_format\": ",
        show_u64(options.pack_format as u64).as_str(),
        ",\n    \"description\": \"",
        escaped(options.description.as_str()).as_str(),
        "\"\n  }\n}\n",
    )
}

fn has_test(f: &Function) -> (r: bool)
    ensures
        r == is_test(f@),
{
    let ghost all = f@.attrs;
    let mut i: usize = 0;
    while i < f.attrs.len()
        invariant
            i <= f.attrs@.len(),
            all == f@.attrs,
            crate::hir::rules::program::is_test(all, 0) == crate::hir::rules::program::is_test(
                all,
                i as int,
            ),
        decreases f.attrs.len() - i,
    {
        proof {
            assert(all[i as int] == f.attrs@[i as int]@);
        }
        match &f.attrs[i] {
            Attr::Test => {
                return true;
            },
            _ => {},
        }
        i += 1;
    }
    false
}

/// The pack of a program.
pub fn emit(mir: &Mir, options: &Options) -> (r: Datapack)
    ensures
        r.files@ == files_of(*options, mir@, mir@.len() as int),
        texts(r.tests@) == tests_of(mir@, mir@.len() as int),
        r.costs@.len() == mir@.len(),
        forall|i: int| 0 <= i < mir@.len() ==> is_cost_of(#[trigger] r.costs@[i], mir@, i),
{
    let ghost all = mir@;
    let mut files = TextMap::new();
    files.insert("pack.mcmeta", show_mcmeta(options));
    let mut tests: Vec<String> = Vec::new();
    proof {
        assert(texts(tests@) =~= seq![]);
    }
    let mut i: usize = 0;
    while i < mir.functions.len()
        invariant
            i <= mir.functions@.len(),
            all == mir@,
            files@ == files_of(*options, all, i as int),
            texts(tests@) == tests_of(all, i as int),
        decreases mir.functions.len() - i,
    {
        proof {
            assert(all[i as int] == mir.functions@[i as int]@);
        }
        let f = &mir.functions[i];
        let (ns, path) = split_id(f.path.as_str());
        let file = cat5("data/", ns.as_str(), "/function/", path.as_str(), ".mcfunction");
        files.insert(file.as_str(), show_function(options, f));
        if has_test(f) {
            let ghost before = texts(tests@);
            tests.push(f.path.clone());
            proof {
                assert(texts(tests@) =~= before.push(f@.path));
            }
        }
        i += 1;
    }
    Datapack { files, costs: costs(mir), tests }
}

} // verus!

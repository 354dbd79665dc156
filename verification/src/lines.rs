//! One instruction is one line.

use vstd::prelude::*;

use crate::emit::{
    at_text, bound_text, cond_text, data_text, decimals, if_text, inst_text, insts_text, op_text,
    otherwise_text, reciprocal, reg_text, sign_text, slice_text, slot_path, source_comment, Options,
    PRECISION,
};
use crate::mir::model::{Cond, ExecuteAs, Inst, Reg};
use crate::mir::{Cmp, Op};
use crate::names::storage_name;
use crate::text::{digit_char, int_text, is_digit, lemma_digits, nat_text};

verus! {

/// Whether a text has no line break in it.
#[verifier::opaque]
pub open spec fn one_line(s: Seq<char>) -> bool {
    forall|i: int| 0 <= i < s.len() ==> #[trigger] s[i] != '\n'
}

/// How many line breaks a text has.
pub open spec fn breaks(s: Seq<char>) -> nat
    decreases s.len(),
{
    if s.len() == 0 {
        0
    } else {
        breaks(s.drop_last()) + if s.last() == '\n' {
            1nat
        } else {
            0nat
        }
    }
}

/// Whether the texts an instruction holds have no line break in them.
pub open spec fn unbroken(inst: Inst) -> bool
    decreases inst,
{
    match inst {
        Inst::Raw(text, _) => one_line(text),
        Inst::Const(dst, _) => one_line(dst.holder),
        Inst::AddConst(dst, _) => one_line(dst.holder),
        Inst::Op(dst, _, src) => one_line(dst.holder) && one_line(src.holder),
        Inst::Cmp(dst, _, _, lhs, rhs) => one_line(dst.holder) && one_line(lhs.holder)
            && one_line(rhs.holder),
        Inst::Matches(dst, src, _, _, _) => one_line(dst.holder) && one_line(src.holder),
        Inst::Call(path) => one_line(path),
        Inst::StoreResult(dst, inst) => one_line(dst.holder) && unbroken(*inst),
        Inst::Get(src) => one_line(src.holder),
        Inst::ReturnRun(inst) => unbroken(*inst),
        Inst::PushFrame => true,
        Inst::PopFrame => true,
        Inst::Save(reg, _) => one_line(reg.holder),
        Inst::Restore(reg, _) => one_line(reg.holder),
        Inst::SaveData(path, _) => one_line(path),
        Inst::RestoreData(path, _) => one_line(path),
        Inst::Return(_) => true,
        Inst::SetValue(path, value) => one_line(path) && one_line(value),
        Inst::CopyData(dst, src) => one_line(dst) && one_line(src),
        Inst::GetData(path) => one_line(path),
        Inst::GetScaled(path, _) => one_line(path),
        Inst::RemoveData(path) => one_line(path),
        Inst::AppendValue(path, value) => one_line(path) && one_line(value),
        Inst::AppendFrom(dst, src) => one_line(dst) && one_line(src),
        Inst::CallWithArgs(path) => one_line(path),
        Inst::Macro(inst) => unbroken(*inst),
        Inst::StoreData(path, tag, inst) => one_line(path) && one_line(tag) && unbroken(*inst),
        Inst::StoreScaled(path, tag, _, inst) => one_line(path) && one_line(tag) && unbroken(
            *inst,
        ),
        Inst::StoreCond(dst, cond) => one_line(dst.holder) && unbroken_cond(cond),
        Inst::SetString(dst, src, _, _) => one_line(dst) && one_line(src),
        Inst::Guarded(cond, inst) => unbroken_cond(cond) && unbroken(*inst),
        Inst::Otherwise(path, tags, inst) => one_line(path) && unbroken(*inst) && forall|i: int|
            0 <= i < tags.len() ==> one_line(#[trigger] tags[i]),
        Inst::Context(clause, inst) => unbroken(*inst) && match clause {
            ExecuteAs::As(selector) => one_line(selector),
            ExecuteAs::At(selector) => one_line(selector),
        },
    }
}

pub open spec fn unbroken_cond(cond: Cond) -> bool {
    match cond {
        Cond::Score(lhs, _, rhs, _) => one_line(lhs.holder) && one_line(rhs.holder),
        Cond::Matches(src, _, _, _) => one_line(src.holder),
        Cond::Data(path, filter, _) => one_line(path) && one_line(filter),
    }
}

proof fn joined_lines()
    ensures
        forall|a: Seq<char>, b: Seq<char>|
            one_line(a) && one_line(b) ==> one_line(#[trigger] (a + b)),
        one_line(seq![]),
        forall|c: char| c != '\n' ==> one_line(#[trigger] seq![c]),
{
    reveal(one_line);
}

proof fn fixed_words()
    ensures
        one_line(" "@),
        one_line("="@),
        one_line("+="@),
        one_line("-="@),
        one_line("*="@),
        one_line("/="@),
        one_line("%="@),
        one_line("<"@),
        one_line(">"@),
        one_line("<="@),
        one_line(">="@),
        one_line("unless"@),
        one_line("if"@),
        one_line(" score "@),
        one_line(" matches "@),
        one_line(".."@),
        one_line(" data storage "@),
        one_line("storage "@),
        one_line("mw.stack[-1].s"@),
        one_line("1"@),
        one_line("0."@),
        one_line("{tag:\""@),
        one_line("\"}"@),
        one_line(" 0 "@),
        one_line("scoreboard players set "@),
        one_line("scoreboard players add "@),
        one_line("scoreboard players remove "@),
        one_line("scoreboard players operation "@),
        one_line("execute store success score "@),
        one_line("function "@),
        one_line("execute store result score "@),
        one_line(" run "@),
        one_line("scoreboard players get "@),
        one_line("return run "@),
        one_line("data modify "@),
        one_line("mw.stack"@),
        one_line(" append value {}"@),
        one_line("data remove "@),
        one_line("mw.stack[-1]"@),
        one_line("execute store result "@),
        one_line(" int 1 run scoreboard players get "@),
        one_line(" run data get "@),
        one_line(" set from "@),
        one_line("return "@),
        one_line(" set value "@),
        one_line("data get "@),
        one_line(" append value "@),
        one_line(" append from "@),
        one_line(" with "@),
        one_line("mw.args"@),
        one_line(" 1 run "@),
        one_line(" set string "@),
        one_line("execute "@),
        one_line("execute"@),
        one_line("as "@),
        one_line("at "@),
        one_line(".v"@),
        one_line(".t"@),
        one_line(":mw"@),
        one_line("$"@),
{
    reveal(one_line);
    reveal_strlit(" ");
    reveal_strlit("=");
    reveal_strlit("+=");
    reveal_strlit("-=");
    reveal_strlit("*=");
    reveal_strlit("/=");
    reveal_strlit("%=");
    reveal_strlit("<");
    reveal_strlit(">");
    reveal_strlit("<=");
    reveal_strlit(">=");
    reveal_strlit("unless");
    reveal_strlit("if");
    reveal_strlit(" score ");
    reveal_strlit(" matches ");
    reveal_strlit("..");
    reveal_strlit(" data storage ");
    reveal_strlit("storage ");
    reveal_strlit("mw.stack[-1].s");
    reveal_strlit("1");
    reveal_strlit("0.");
    reveal_strlit("{tag:\"");
    reveal_strlit("\"}");
    reveal_strlit(" 0 ");
    reveal_strlit("scoreboard players set ");
    reveal_strlit("scoreboard players add ");
    reveal_strlit("scoreboard players remove ");
    reveal_strlit("scoreboard players operation ");
    reveal_strlit("execute store success score ");
    reveal_strlit("function ");
    reveal_strlit("execute store result score ");
    reveal_strlit(" run ");
    reveal_strlit("scoreboard players get ");
    reveal_strlit("return run ");
    reveal_strlit("data modify ");
    reveal_strlit("mw.stack");
    reveal_strlit(" append value {}");
    reveal_strlit("data remove ");
    reveal_strlit("mw.stack[-1]");
    reveal_strlit("execute store result ");
    reveal_strlit(" int 1 run scoreboard players get ");
    reveal_strlit(" run data get ");
    reveal_strlit(" set from ");
    reveal_strlit("return ");
    reveal_strlit(" set value ");
    reveal_strlit("data get ");
    reveal_strlit(" append value ");
    reveal_strlit(" append from ");
    reveal_strlit(" with ");
    reveal_strlit("mw.args");
    reveal_strlit(" 1 run ");
    reveal_strlit(" set string ");
    reveal_strlit("execute ");
    reveal_strlit("execute");
    reveal_strlit("as ");
    reveal_strlit("at ");
    reveal_strlit(".v");
    reveal_strlit(".t");
    reveal_strlit(":mw");
    reveal_strlit("$");
}

proof fn numbers_are_one_line(n: nat)
    ensures
        one_line(nat_text(n)),
{
    reveal(one_line);
    lemma_digits(n);
    let s = nat_text(n);
    assert forall|i: int| 0 <= i < s.len() implies #[trigger] s[i] != '\n' by {
        assert(is_digit(s[i]));
    }
}

proof fn integers_are_one_line(n: int)
    ensures
        one_line(int_text(n)),
{
    joined_lines();
    if n < 0 {
        numbers_are_one_line((-n) as nat);
    } else {
        numbers_are_one_line(n as nat);
    }
}

proof fn fractions_are_one_line(rem: nat, scale: nat, n: nat)
    requires
        rem < scale,
    ensures
        one_line(decimals(rem, scale, n)),
    decreases n,
{
    joined_lines();
    if !(n == 0 || rem == 0) {
        let digit = (rem * 10 / scale) as int;
        assert(0 <= digit < 10) by (nonlinear_arith)
            requires
                digit == rem * 10 / scale,
                0 <= rem < scale,
        {}
        assert(0 <= rem * 10 % scale < scale) by (nonlinear_arith)
            requires
                scale > 0,
        {}
        fractions_are_one_line((rem * 10 % scale) as nat, scale, (n - 1) as nat);
        assert(digit_char(digit) != '\n');
    }
}

proof fn registers_are_one_line(ns: Seq<char>, reg: Reg)
    requires
        one_line(ns),
        one_line(reg.holder),
    ensures
        one_line(reg_text(ns, reg)),
{
    joined_lines();
    fixed_words();
}

proof fn paths_are_one_line(ns: Seq<char>, path: Seq<char>)
    requires
        one_line(ns),
        one_line(path),
    ensures
        one_line(at_text(ns, path)),
{
    joined_lines();
    fixed_words();
}

proof fn slots_are_one_line(ns: Seq<char>, slot: u32)
    requires
        one_line(ns),
    ensures
        one_line(at_text(ns, slot_path(slot))),
{
    joined_lines();
    fixed_words();
    numbers_are_one_line(slot as nat);
    paths_are_one_line(ns, slot_path(slot));
}

proof fn bounds_are_one_line(bound: Option<i32>)
    ensures
        one_line(bound_text(bound)),
{
    joined_lines();
    match bound {
        Some(n) => integers_are_one_line(n as int),
        None => {},
    }
}

proof fn tests_are_one_line(ns: Seq<char>, cond: Cond)
    requires
        one_line(ns),
        unbroken_cond(cond),
    ensures
        one_line(cond_text(ns, cond)),
{
    joined_lines();
    fixed_words();
    match cond {
        Cond::Score(lhs, by, rhs, negated) => {
            registers_are_one_line(ns, lhs);
            registers_are_one_line(ns, rhs);
            assert(one_line(sign_text(by)));
            assert(one_line(if_text(negated)));
        },
        Cond::Matches(src, min, max, negated) => {
            registers_are_one_line(ns, src);
            bounds_are_one_line(min);
            bounds_are_one_line(max);
            assert(one_line(if_text(negated)));
        },
        Cond::Data(path, filter, negated) => {
            assert(one_line(if_text(negated)));
            assert(one_line(storage_name(ns)));
        },
    }
}

proof fn exclusions_are_one_line(ns: Seq<char>, path: Seq<char>, tags: Seq<Seq<char>>, i: int)
    requires
        one_line(ns),
        one_line(path),
        forall|k: int| 0 <= k < tags.len() ==> one_line(#[trigger] tags[k]),
    ensures
        one_line(otherwise_text(ns, path, tags, i)),
    decreases i,
{
    joined_lines();
    if 0 < i <= tags.len() {
        fixed_words();
        exclusions_are_one_line(ns, path, tags, i - 1);
        let filter = "{tag:\""@ + tags[i - 1] + "\"}"@;
        assert(one_line(tags[i - 1]));
        assert(one_line(filter));
        tests_are_one_line(ns, Cond::Data(path, filter, true));
        assert(one_line(data_text(ns, path, filter, true)));
    }
}

/// Every instruction is exactly one line, where the texts it was given are.
pub proof fn lemma_one_instruction_is_one_line(ns: Seq<char>, inst: Inst)
    requires
        one_line(ns),
        unbroken(inst),
    ensures
        one_line(inst_text(ns, inst)),
    decreases inst,
{
    reveal(inst_text);
    joined_lines();
    fixed_words();
    match inst {
        Inst::Raw(_, _) => {},
        Inst::Const(dst, n) => {
            registers_are_one_line(ns, dst);
            integers_are_one_line(n as int);
        },
        Inst::AddConst(dst, n) => {
            registers_are_one_line(ns, dst);
            integers_are_one_line(n as int);
            if n < 0 {
                numbers_are_one_line((-n) as nat);
            }
        },
        Inst::Op(dst, op, src) => {
            registers_are_one_line(ns, dst);
            registers_are_one_line(ns, src);
            assert(one_line(op_text(op)));
        },
        Inst::Cmp(dst, by, negated, lhs, rhs) => {
            registers_are_one_line(ns, dst);
            tests_are_one_line(ns, Cond::Score(lhs, by, rhs, negated));
        },
        Inst::Matches(dst, src, min, max, negated) => {
            registers_are_one_line(ns, dst);
            tests_are_one_line(ns, Cond::Matches(src, min, max, negated));
        },
        Inst::Call(_) => {},
        Inst::StoreResult(dst, inst) => {
            registers_are_one_line(ns, dst);
            lemma_one_instruction_is_one_line(ns, *inst);
        },
        Inst::Get(src) => registers_are_one_line(ns, src),
        Inst::ReturnRun(inst) => lemma_one_instruction_is_one_line(ns, *inst),
        Inst::PushFrame => paths_are_one_line(ns, "mw.stack"@),
        Inst::PopFrame => paths_are_one_line(ns, "mw.stack[-1]"@),
        Inst::Save(reg, slot) => {
            registers_are_one_line(ns, reg);
            slots_are_one_line(ns, slot);
        },
        Inst::Restore(reg, slot) => {
            registers_are_one_line(ns, reg);
            slots_are_one_line(ns, slot);
        },
        Inst::SaveData(path, slot) => {
            paths_are_one_line(ns, path);
            slots_are_one_line(ns, slot);
        },
        Inst::RestoreData(path, slot) => {
            paths_are_one_line(ns, path);
            slots_are_one_line(ns, slot);
        },
        Inst::Return(n) => integers_are_one_line(n as int),
        Inst::SetValue(path, _) => paths_are_one_line(ns, path),
        Inst::CopyData(dst, src) => {
            paths_are_one_line(ns, dst);
            paths_are_one_line(ns, src);
        },
        Inst::GetData(path) => paths_are_one_line(ns, path),
        Inst::GetScaled(path, scale) => {
            paths_are_one_line(ns, path);
            numbers_are_one_line(scale as nat);
        },
        Inst::RemoveData(path) => paths_are_one_line(ns, path),
        Inst::AppendValue(path, _) => paths_are_one_line(ns, path),
        Inst::AppendFrom(dst, src) => {
            paths_are_one_line(ns, dst);
            paths_are_one_line(ns, src);
        },
        Inst::CallWithArgs(_) => paths_are_one_line(ns, "mw.args"@),
        Inst::Macro(inst) => lemma_one_instruction_is_one_line(ns, *inst),
        Inst::StoreData(path, _, inst) => {
            paths_are_one_line(ns, path);
            lemma_one_instruction_is_one_line(ns, *inst);
        },
        Inst::StoreScaled(path, _, scale, inst) => {
            paths_are_one_line(ns, path);
            lemma_one_instruction_is_one_line(ns, *inst);
            if scale > 1 {
                fractions_are_one_line(1, scale as nat, PRECISION as nat);
            }
            assert(one_line(reciprocal(scale)));
        },
        Inst::StoreCond(dst, cond) => {
            registers_are_one_line(ns, dst);
            tests_are_one_line(ns, cond);
        },
        Inst::SetString(dst, src, start, end) => {
            paths_are_one_line(ns, dst);
            paths_are_one_line(ns, src);
            bounds_are_one_line(start);
            bounds_are_one_line(end);
            assert(one_line(slice_text(start, end)));
        },
        Inst::Guarded(cond, inst) => {
            tests_are_one_line(ns, cond);
            lemma_one_instruction_is_one_line(ns, *inst);
        },
        Inst::Otherwise(path, tags, inst) => {
            exclusions_are_one_line(ns, path, tags, tags.len() as int);
            lemma_one_instruction_is_one_line(ns, *inst);
        },
        Inst::Context(clause, inst) => {
            lemma_one_instruction_is_one_line(ns, *inst);
            match clause {
                ExecuteAs::As(_) => {},
                ExecuteAs::At(_) => {},
            }
        },
    }
}

proof fn lemma_breaks_in_parts(a: Seq<char>, b: Seq<char>)
    ensures
        breaks(a + b) == breaks(a) + breaks(b),
    decreases b.len(),
{
    if b.len() == 0 {
        assert(a + b =~= a);
    } else {
        lemma_breaks_in_parts(a, b.drop_last());
        assert((a + b).drop_last() =~= a + b.drop_last());
    }
}

proof fn lemma_no_breaks(s: Seq<char>)
    requires
        one_line(s),
    ensures
        breaks(s) == 0,
    decreases s.len(),
{
    reveal(one_line);
    if s.len() > 0 {
        assert forall|i: int| 0 <= i < s.drop_last().len() implies #[trigger] s.drop_last()[i]
            != '\n' by {
            assert(s[i] != '\n');
        }
        lemma_no_breaks(s.drop_last());
    }
}

/// A block has as many lines as instructions, where nothing is quoted beside them.
pub proof fn lemma_as_many_lines_as_instructions(
    options: Options,
    ns: Seq<char>,
    insts: Seq<Inst>,
    i: int,
)
    requires
        0 <= i <= insts.len(),
        one_line(ns),
        forall|k: int| 0 <= k < insts.len() ==> unbroken(#[trigger] insts[k]),
        options.source is None,
    ensures
        breaks(insts_text(options, ns, insts, i)) == i,
    decreases i,
{
    if i > 0 {
        let inst = insts[i - 1];
        lemma_as_many_lines_as_instructions(options, ns, insts, i - 1);
        lemma_one_instruction_is_one_line(ns, inst);
        let line = inst_text(ns, inst);
        lemma_no_breaks(line);
        reveal_strlit("\n");
        assert(breaks("\n"@.drop_last()) == 0);
        assert(source_comment(options, inst) + line + "\n"@ =~= line + "\n"@);
        lemma_breaks_in_parts(line, "\n"@);
        lemma_breaks_in_parts(insts_text(options, ns, insts, i - 1), line + "\n"@);
    }
}

} // verus!

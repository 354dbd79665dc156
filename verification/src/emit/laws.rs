//! What is written does what was meant: the text of a command on scores, read as the game
//! reads it, does to the scores what the instruction does.

use vstd::arithmetic::power::pow;
use vstd::prelude::*;

use crate::emit::{decimals, inst_text, reciprocal, reg_text, PRECISION};
use crate::mir::meaning::{bit, compared, in_range, operated, stepped, wrapped};
use crate::mir::model::{Inst, Reg};
use crate::mir::{Cmp, Op};
use crate::text::{digit_char, digits_value, int_text, nat_text};

verus! {

// ---------------------------------------------------------------------------
// How the game reads commands on scores.
// ---------------------------------------------------------------------------

/// What `scoreboard players operation` does by the sign between the two.
pub open spec fn by_sign(sign: Seq<char>, a: i32, b: i32) -> Option<i32> {
    if sign == "="@ {
        Some(b)
    } else if sign == "+="@ {
        Some(wrapped(a + b))
    } else if sign == "-="@ {
        Some(wrapped(a - b))
    } else if sign == "*="@ {
        Some(wrapped(a * b))
    } else if sign == "/="@ {
        Some(operated(Op::Div, a, b))
    } else if sign == "%="@ {
        Some(operated(Op::Rem, a, b))
    } else if sign == "<"@ {
        Some(
            if a < b {
                a
            } else {
                b
            },
        )
    } else if sign == ">"@ {
        Some(
            if a > b {
                a
            } else {
                b
            },
        )
    } else {
        None
    }
}

/// What a comparison tells by the sign between the two.
pub open spec fn told_by(sign: Seq<char>, a: i32, b: i32) -> Option<bool> {
    if sign == "<"@ {
        Some(a < b)
    } else if sign == "<="@ {
        Some(a <= b)
    } else if sign == "="@ {
        Some(a == b)
    } else if sign == ">="@ {
        Some(a >= b)
    } else if sign == ">"@ {
        Some(a > b)
    } else {
        None
    }
}

/// Whether a number is in a range as it is written: either end may be left open.
pub open spec fn in_written_range(n: i32, low: Seq<char>, high: Seq<char>) -> bool {
    &&& low.len() > 0 ==> exists|min: i32| low == #[trigger] int_text(min as int) && min <= n
    &&& high.len() > 0 ==> exists|max: i32| high == #[trigger] int_text(max as int) && n <= max
}

/// Whether a test does what `if` and `unless` make of it.
pub open spec fn tells(word: Seq<char>, found: bool, told: bool) -> bool {
    word == "if"@ && told == found || word == "unless"@ && told != found
}

/// Whether a command leads from one reading of the scores to another. A score goes by its
/// holder and its objective.
pub open spec fn does(
    text: Seq<char>,
    a: Map<Seq<char>, i32>,
    b: Map<Seq<char>, i32>,
) -> bool {
    ||| exists|dst: Seq<char>, n: i32|
        text == "scoreboard players set "@ + dst + " "@ + int_text(n as int) && b
            == #[trigger] a.insert(dst, n)
    ||| exists|dst: Seq<char>, n: nat, sum: i32|
        text == "scoreboard players add "@ + dst + " "@ + #[trigger] nat_text(n) && b
            == #[trigger] a.insert(dst, sum) && sum == wrapped(a[dst] + n)
    ||| exists|dst: Seq<char>, n: nat, sum: i32|
        text == "scoreboard players remove "@ + dst + " "@ + #[trigger] nat_text(n) && b
            == #[trigger] a.insert(dst, sum) && sum == wrapped(a[dst] - n)
    ||| exists|dst: Seq<char>, sign: Seq<char>, src: Seq<char>|
        text == "scoreboard players operation "@ + dst + " "@ + sign + " "@ + src
            && #[trigger] by_sign(sign, a[dst], a[src]) is Some && b == a.insert(
            dst,
            by_sign(sign, a[dst], a[src])->0,
        )
    ||| exists|
        dst: Seq<char>,
        word: Seq<char>,
        x: Seq<char>,
        sign: Seq<char>,
        y: Seq<char>,
        told: bool,
    |
        text == "execute store success score "@ + dst + " "@ + (word + " score "@ + x + " "@ + sign
            + " "@ + y) && #[trigger] told_by(sign, a[x], a[y]) is Some && #[trigger] tells(
            word,
            told_by(sign, a[x], a[y])->0,
            told,
        ) && b == #[trigger] a.insert(dst, bit(told))
    ||| exists|
        dst: Seq<char>,
        word: Seq<char>,
        x: Seq<char>,
        low: Seq<char>,
        high: Seq<char>,
        told: bool,
    |
        text == "execute store success score "@ + dst + " "@ + (word + " score "@ + x
            + " matches "@ + low + ".."@ + high) && #[trigger] tells(
            word,
            in_written_range(a[x], low, high),
            told,
        ) && b == #[trigger] a.insert(dst, bit(told))
}

// ---------------------------------------------------------------------------
// What is written.
// ---------------------------------------------------------------------------

/// Whether the scores as the game names them are those of the registers.
pub open spec fn shown(ns: Seq<char>, s: Map<Reg, i32>, a: Map<Seq<char>, i32>) -> bool {
    forall|r: Reg| a[#[trigger] reg_text(ns, r)] == s[r]
}

/// Two registers are never named alike.
pub proof fn lemma_registers_are_named_apart(ns: Seq<char>, x: Reg, y: Reg)
    ensures
        reg_text(ns, x) == reg_text(ns, y) <==> x == y,
{
    reveal_strlit(".v");
    reveal_strlit(".t");
    reveal_strlit(" ");
    let a = reg_text(ns, x);
    let b = reg_text(ns, y);
    assert(a.last() == if x.kind is Var { 'v' } else { 't' });
    assert(b.last() == if y.kind is Var { 'v' } else { 't' });
    if a == b {
        let n = a.len() - ns.len() - 3;
        assert(x.holder =~= a.take(n));
        assert(y.holder =~= b.take(n));
    }
}

proof fn lemma_shown(
    ns: Seq<char>,
    s: Map<Reg, i32>,
    a: Map<Seq<char>, i32>,
    dst: Reg,
    n: i32,
)
    requires
        shown(ns, s, a),
    ensures
        shown(ns, s.insert(dst, n), a.insert(reg_text(ns, dst), n)),
{
    let b = a.insert(reg_text(ns, dst), n);
    let t = s.insert(dst, n);
    assert forall|r: Reg| b[#[trigger] reg_text(ns, r)] == t[r] by {
        lemma_registers_are_named_apart(ns, r, dst);
        assert(a[reg_text(ns, r)] == s[r]);
    }
}

proof fn lemma_ints_differ(a: i32, b: i32)
    requires
        int_text(a as int) == int_text(b as int),
    ensures
        a == b,
{
    crate::mir::storing::lemma_ints_differ(a as int, b as int);
}

proof fn lemma_bound(n: i32, min: Option<i32>, max: Option<i32>)
    ensures
        in_written_range(n, crate::emit::bound_text(min), crate::emit::bound_text(max))
            == in_range(n, min, max),
{
    let low = crate::emit::bound_text(min);
    let high = crate::emit::bound_text(max);
    match min {
        Some(m) => {
            crate::mir::storing::lemma_ints_differ(m as int, m as int);
            assert(low == int_text(m as int));
            if exists|k: i32| low == #[trigger] int_text(k as int) && k <= n {
                let k = choose|k: i32| low == #[trigger] int_text(k as int) && k <= n;
                lemma_ints_differ(k, m);
            }
        },
        None => {},
    }
    match max {
        Some(m) => {
            crate::mir::storing::lemma_ints_differ(m as int, m as int);
            assert(high == int_text(m as int));
            if exists|k: i32| high == #[trigger] int_text(k as int) && n <= k {
                let k = choose|k: i32| high == #[trigger] int_text(k as int) && n <= k;
                lemma_ints_differ(k, m);
            }
        },
        None => {},
    }
}

proof fn lemma_signs()
    ensures
        forall|op: Op, a: i32, b: i32| #[trigger]
            by_sign(crate::emit::op_text(op), a, b) == Some(operated(op, a, b)),
        forall|by: Cmp, a: i32, b: i32| #[trigger]
            told_by(crate::emit::sign_text(by), a, b) == Some(compared(by, a, b)),
        forall|negated: bool, found: bool, told: bool|
            told == (found != negated) ==> #[trigger] tells(
                crate::emit::if_text(negated),
                found,
                told,
            ),
{
    reveal_strlit("=");
    reveal_strlit("+=");
    reveal_strlit("-=");
    reveal_strlit("*=");
    reveal_strlit("/=");
    reveal_strlit("%=");
    reveal_strlit("<");
    reveal_strlit(">");
    reveal_strlit("<=");
    reveal_strlit(">=");
    reveal_strlit("if");
    reveal_strlit("unless");
    assert("="@.len() == 1 && "<"@.len() == 1 && ">"@.len() == 1);
    assert("="@[0] == '=' && "<"@[0] == '<' && ">"@[0] == '>');
    assert("+="@[0] == '+' && "-="@[0] == '-' && "*="@[0] == '*' && "/="@[0] == '/');
    assert("%="@[0] == '%' && "<="@[0] == '<' && ">="@[0] == '>');
    assert("if"@.len() == 2 && "unless"@.len() == 6);
}

/// The text of an instruction on scores does what the instruction does.
#[verifier::spinoff_prover]
pub proof fn lemma_commands_do_what_was_meant(
    ns: Seq<char>,
    inst: Inst,
    s: Map<Reg, i32>,
    a: Map<Seq<char>, i32>,
) -> (b: Map<Seq<char>, i32>)
    requires
        stepped(s, inst) is Some,
        shown(ns, s, a),
    ensures
        does(inst_text(ns, inst), a, b),
        shown(ns, stepped(s, inst)->0, b),
{
    reveal(inst_text);
    lemma_signs();
    match inst {
        Inst::Const(dst, n) => {
            lemma_shown(ns, s, a, dst, n);
            a.insert(reg_text(ns, dst), n)
        },
        Inst::AddConst(dst, n) => {
            let sum = wrapped(s[dst] + n);
            lemma_shown(ns, s, a, dst, sum);
            let name = reg_text(ns, dst);
            assert(a[name] == s[dst]);
            let size: nat = if n >= 0 {
                n as nat
            } else {
                (-n) as nat
            };
            let b = a.insert(name, sum);
            if n >= 0 {
                assert(inst_text(ns, inst) == "scoreboard players add "@ + name + " "@ + nat_text(
                    size,
                ));
            } else {
                assert(inst_text(ns, inst) == "scoreboard players remove "@ + name + " "@
                    + nat_text(size));
            }
            b
        },
        Inst::Op(dst, op, src) => {
            let x = reg_text(ns, dst);
            let y = reg_text(ns, src);
            assert(a[x] == s[dst] && a[y] == s[src]);
            let n = operated(op, s[dst], s[src]);
            lemma_shown(ns, s, a, dst, n);
            assert(by_sign(crate::emit::op_text(op), a[x], a[y]) == Some(n));
            a.insert(x, n)
        },
        Inst::Cmp(dst, by, negated, l, r) => {
            let x = reg_text(ns, l);
            let y = reg_text(ns, r);
            let sign = crate::emit::sign_text(by);
            let word = crate::emit::if_text(negated);
            assert(a[x] == s[l] && a[y] == s[r]);
            let found = compared(by, s[l], s[r]);
            let told = found != negated;
            lemma_shown(ns, s, a, dst, bit(told));
            assert(told_by(sign, a[x], a[y]) == Some(found));
            assert(tells(word, told_by(sign, a[x], a[y])->0, told));
            let b = a.insert(reg_text(ns, dst), bit(told));
            assert(inst_text(ns, inst) == "execute store success score "@ + reg_text(ns, dst)
                + " "@ + (word + " score "@ + x + " "@ + sign + " "@ + y));
            b
        },
        Inst::Matches(dst, src, min, max, negated) => {
            let x = reg_text(ns, src);
            let word = crate::emit::if_text(negated);
            let low = crate::emit::bound_text(min);
            let high = crate::emit::bound_text(max);
            assert(a[x] == s[src]);
            lemma_bound(a[x], min, max);
            let told = in_range(s[src], min, max) != negated;
            lemma_shown(ns, s, a, dst, bit(told));
            assert(tells(word, in_written_range(a[x], low, high), told));
            let b = a.insert(reg_text(ns, dst), bit(told));
            assert(inst_text(ns, inst) == "execute store success score "@ + reg_text(ns, dst)
                + " "@ + (word + " score "@ + x + " matches "@ + low + ".."@ + high));
            b
        },
        _ => a,
    }
}

// ---------------------------------------------------------------------------
// Fractions.
// ---------------------------------------------------------------------------

proof fn lemma_first_digit(c: char, t: Seq<char>)
    requires
        '0' <= c <= '9',
        forall|i: int| 0 <= i < t.len() ==> '0' <= #[trigger] t[i] <= '9',
    ensures
        digits_value(seq![c] + t) == (c as nat - '0' as nat) * pow(10, t.len()) + digits_value(t),
    decreases t.len(),
{
    let all = seq![c] + t;
    vstd::arithmetic::power::lemma_pow0(10);
    if t.len() == 0 {
        assert(all.drop_last() =~= seq![]);
        assert(digits_value(all.drop_last()) == 0);
        assert(all.last() == c);
    } else {
        let u = t.drop_last();
        assert(all.drop_last() =~= seq![c] + u);
        lemma_first_digit(c, u);
        vstd::arithmetic::power::lemma_pow_adds(10, u.len(), 1);
        vstd::arithmetic::power::lemma_pow1(10);
        let d = c as nat - '0' as nat;
        let p = pow(10, u.len());
        assert(all.last() == t.last());
        assert((d * p) * 10 == d * (p * 10)) by (nonlinear_arith);
    }
}

proof fn lemma_decimals(rem: nat, scale: nat, n: nat)
    requires
        rem < scale,
    ensures
        ({
            let t = decimals(rem, scale, n);
            &&& t.len() <= n
            &&& forall|i: int| 0 <= i < t.len() ==> '0' <= #[trigger] t[i] <= '9'
            &&& digits_value(t) * scale <= rem * pow(10, t.len()) < digits_value(t) * scale + scale
            &&& t.len() < n ==> digits_value(t) * scale == rem * pow(10, t.len())
        }),
    decreases n,
{
    let t = decimals(rem, scale, n);
    vstd::arithmetic::power::lemma_pow0(10);
    if n == 0 || rem == 0 {
        assert(t.len() == 0);
        assert(digits_value(t) == 0);
        assert(0 * scale == 0) by (nonlinear_arith);
        assert(rem * 1 == rem) by (nonlinear_arith);
    } else {
        let q = rem * 10 / scale;
        let r = (rem * 10 % scale) as nat;
        vstd::arithmetic::div_mod::lemma_fundamental_div_mod((rem * 10) as int, scale as int);
        vstd::arithmetic::div_mod::lemma_mod_bound((rem * 10) as int, scale as int);
        assert(0 <= q < 10) by (nonlinear_arith)
            requires
                rem < scale,
                scale * q + r == rem * 10,
                0 <= r < scale,
        ;
        let u = decimals(r, scale, (n - 1) as nat);
        lemma_decimals(r, scale, (n - 1) as nat);
        let c = digit_char(q as int);
        assert(c as nat - '0' as nat == q);
        lemma_first_digit(c, u);
        vstd::arithmetic::power::lemma_pow_adds(10, u.len(), 1);
        vstd::arithmetic::power::lemma_pow1(10);
        let p = pow(10, u.len());
        let v = digits_value(u);
        assert(t =~= seq![c] + u);
        assert((q * p + v) * scale == (scale * q) * p + v * scale) by (nonlinear_arith);
        assert(rem * (p * 10) == (scale * q) * p + r * p) by (nonlinear_arith)
            requires
                scale * q + r == rem * 10,
        ;
    }
}

/// What a scaled number is stored by is one part in its scale: the fraction that is written
/// is `1 / scale` rounded down to its digits, and exact if it has fewer than it may have.
pub proof fn lemma_reciprocals_are_written(scale: u32)
    requires
        scale > 1,
    ensures
        ({
            let t = decimals(1, scale as nat, PRECISION as nat);
            &&& reciprocal(scale) == "0."@ + t
            &&& digits_value(t) * scale <= pow(10, t.len()) < (digits_value(t) + 1) * scale
            &&& t.len() < PRECISION ==> digits_value(t) * scale == pow(10, t.len())
        }),
{
    lemma_decimals(1, scale as nat, PRECISION as nat);
    let v = digits_value(decimals(1, scale as nat, PRECISION as nat));
    assert((v + 1) * scale == v * scale + scale) by (nonlinear_arith);
}

} // verus!

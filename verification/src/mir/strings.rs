//! What the commands on strings do, and that comparing strings compares them.
//!
//! Strings live in storage, and no command compares two of them: there is only
//! `execute if data`, which tells whether a compound has a key with a given value. This is
//! about the commands that come of `==` and `!=` on strings.

use vstd::prelude::*;

use crate::hir::model::{Expr, Function as HirFunction, Kind, Root};
use crate::hir::rules::values::is_static;
use crate::hir::Type;
use crate::mir::meaning::{bit, holds, stepped, value_in};
use crate::mir::model::{Cond, Inst, Reg};
use crate::mir::rules::{
    binary, check_root, concat_into, concat_side, copy_into, expr, expr_into, expr_or_copy,
    filterable, local_path, macro_helper, place_path, string_compare, string_match, Env, Lx, Value,
    Written,
};
use crate::mir::running::{linked, Code};
use crate::names::var_path_name;
use crate::syntax::ast::BinaryOp;
use crate::syntax::laws::lemma_quotes_differ;
use crate::text::{escape, lemma_digits, nat_text, quote, rfind};

verus! {

// ---------------------------------------------------------------------------
// The commands.
// ---------------------------------------------------------------------------

/// The scores, and the strings in storage by their path.
pub struct Held {
    pub scores: Map<Reg, i32>,
    pub text: Map<Seq<char>, Seq<char>>,
}

/// The path of a key in a compound.
pub open spec fn joined(parent: Seq<char>, key: Seq<char>) -> Seq<char> {
    parent + "."@ + key
}

/// A compound with one key, as a filter is written.
pub open spec fn filter_of(key: Seq<char>, text: Seq<char>) -> Seq<char> {
    "{"@ + key + ":"@ + quote(text) + "}"@
}

pub open spec fn lacks(s: Seq<char>, c: char) -> bool {
    forall|i: int| 0 <= i < s.len() ==> #[trigger] s[i] != c
}

/// Whether the compound at `parent` has what the filter asks for: the string under the key.
pub open spec fn filtered(
    text: Map<Seq<char>, Seq<char>>,
    parent: Seq<char>,
    filter: Seq<char>,
) -> bool {
    exists|key: Seq<char>, wanted: Seq<char>|
        lacks(key, ':') && filter == #[trigger] filter_of(key, wanted) && text.contains_key(
            joined(parent, key),
        ) && text[joined(parent, key)] == wanted
}

pub open spec fn tested(c: Cond, h: Held) -> bool {
    match c {
        Cond::Data(parent, filter, negated) => filtered(h.text, parent, filter) != negated,
        _ => holds(c, h.scores),
    }
}

/// A macro line from the `i`th character on, with an argument put in wherever `hole` stands.
pub open spec fn spliced(line: Seq<char>, i: int, hole: Seq<char>, s: Seq<char>) -> Seq<char>
    decreases line.len() - i,
{
    if i < 0 || i >= line.len() {
        seq![]
    } else if hole.len() > 0 && i + hole.len() <= line.len() && line.subrange(i, i + hole.len())
        == hole {
        s + spliced(line, i + hole.len(), hole, s)
    } else {
        seq![line[i]] + spliced(line, i + 1, hole, s)
    }
}

/// A macro line from the `i`th character on, with the arguments `a` and `b` put in.
pub open spec fn joined_in(line: Seq<char>, i: int, a: Seq<char>, b: Seq<char>) -> Seq<char>
    decreases line.len() - i,
{
    if i < 0 || i >= line.len() {
        seq![]
    } else if i + 4 <= line.len() && line.subrange(i, i + 4) == "$(a)"@ {
        a + joined_in(line, i + 4, a, b)
    } else if i + 4 <= line.len() && line.subrange(i, i + 4) == "$(b)"@ {
        b + joined_in(line, i + 4, a, b)
    } else {
        seq![line[i]] + joined_in(line, i + 1, a, b)
    }
}

/// The string that a quoted text is.
pub open spec fn unquoted(text: Seq<char>) -> Seq<char> {
    choose|s: Seq<char>| text == quote(s)
}

/// The command that a macro line stands for.
pub open spec fn filled(inst: Inst, s: Seq<char>) -> Option<Inst> {
    match inst {
        Inst::StoreCond(dst, Cond::Data(parent, filter, negated)) => Some(
            Inst::StoreCond(
                dst,
                Cond::Data(
                    spliced(parent, 0, "$(s)"@, s),
                    spliced(filter, 0, "$(s)"@, s),
                    negated,
                ),
            ),
        ),
        _ => None,
    }
}

/// What a command leaves that calls nothing.
pub open spec fn done(inst: Inst, h: Held) -> Option<Held> {
    match inst {
        Inst::CopyData(dst, src) => Some(
            if h.text.contains_key(src) {
                Held { text: h.text.insert(dst, h.text[src]), ..h }
            } else {
                h
            },
        ),
        Inst::SetValue(path, text) => Some(
            Held { text: h.text.insert(path, unquoted(text)), ..h },
        ),
        Inst::StoreCond(dst, c) => Some(
            Held { scores: h.scores.insert(dst, bit(tested(c, h))), ..h },
        ),
        _ => match stepped(h.scores, inst) {
            Some(scores) => Some(Held { scores, ..h }),
            None => None,
        },
    }
}

/// What a command leaves. A call with arguments takes them from `mw.args`.
pub open spec fn told(code: Code, inst: Inst, h: Held) -> Option<Held> {
    match inst {
        Inst::CallWithArgs(path) => if code.contains_key(path) && code[path].len() == 1 {
            match code[path][0] {
                Inst::Macro(line) => match *line {
                    Inst::SetValue(to, text) => {
                        let (a, b) = (h.text["mw.args.a"@], h.text["mw.args.b"@]);
                        done(
                            Inst::SetValue(joined_in(to, 0, a, b), joined_in(text, 0, a, b)),
                            h,
                        )
                    },
                    _ => if h.text.contains_key("mw.args.s"@) {
                        match filled(*line, h.text["mw.args.s"@]) {
                            Some(line) => done(line, h),
                            None => None,
                        }
                    } else {
                        None
                    },
                },
                _ => None,
            }
        } else {
            None
        },
        _ => done(inst, h),
    }
}

/// What the commands from the `from`th on leave, if they are about scores and strings.
pub open spec fn after_all(
    code: Code,
    insts: Seq<Inst>,
    from: int,
    h: Held,
) -> Option<Held>
    decreases insts.len(),
{
    if insts.len() == 0 || insts.len() <= from {
        Some(h)
    } else {
        match after_all(code, insts.drop_last(), from, h) {
            Some(h1) => told(code, insts.last(), h1),
            None => None,
        }
    }
}

// ---------------------------------------------------------------------------
// The language.
// ---------------------------------------------------------------------------

/// Where a string is that is somewhere already: in a binding, or in a field or an element of
/// one.
pub open spec fn string_path(f: HirFunction, e: Expr) -> Seq<char> {
    match e.kind {
        Kind::Local(local) => local_path(f, local),
        Kind::Field(place) => place_path(f, place),
        _ => seq![],
    }
}

/// The string an expression stands for.
pub open spec fn string_of(f: HirFunction, h: Held, e: Expr) -> Seq<char> {
    match e.kind {
        Kind::Str(text) => text,
        _ => h.text[string_path(f, e)],
    }
}

/// Whether a path can be named in a command: the last key has no `:` in it, and nothing in
/// it is taken for an argument of a macro.
pub open spec fn nameable(path: Seq<char>) -> bool {
    lacks(path.skip(rfind(path, '.', path.len() as int) + 1), ':') && lacks(path, '$')
}

/// Whether an expression is a literal, or a string that is in a binding.
pub open spec fn is_held(f: HirFunction, h: Held, e: Expr) -> bool {
    &&& e.ty is Str
    &&& match e.kind {
        Kind::Str(_) => true,
        Kind::Local(_) => true,
        Kind::Field(place) => is_static(place) && !(place.root is Entity),
        _ => false,
    }
    &&& e.kind is Str || nameable(string_path(f, e)) && h.text.contains_key(string_path(f, e))
}

/// Whether a string can be spliced between quotes as it is.
pub open spec fn is_plain(s: Seq<char>) -> bool {
    lacks(s, '"') && lacks(s, '\\')
}

// ---------------------------------------------------------------------------
// Texts.
// ---------------------------------------------------------------------------

proof fn lemma_plain_is_not_escaped(s: Seq<char>)
    requires
        is_plain(s),
    ensures
        escape(s) == s,
    decreases s.len(),
{
    if s.len() > 0 {
        assert(is_plain(s.drop_last()));
        lemma_plain_is_not_escaped(s.drop_last());
        assert(s.last() != '"' && s.last() != '\\');
        assert(s =~= s.drop_last() + seq![s.last()]);
    } else {
        assert(s =~= seq![]);
    }
}

proof fn lemma_filters_differ(a: Seq<char>, s: Seq<char>, b: Seq<char>, t: Seq<char>)
    requires
        lacks(a, ':'),
        lacks(b, ':'),
        filter_of(a, s) == filter_of(b, t),
    ensures
        a == b,
        s == t,
{
    reveal_strlit("{");
    reveal_strlit(":");
    reveal_strlit("}");
    let x = filter_of(a, s);
    let y = filter_of(b, t);
    let n = a.len() as int;
    let m = b.len() as int;
    assert(x[1 + n] == ':');
    assert(y[1 + m] == ':');
    if n < m {
        assert(y[1 + n] == b[n]);
    }
    if m < n {
        assert(x[1 + m] == a[m]);
    }
    assert(a =~= x.subrange(1, 1 + n));
    assert(b =~= y.subrange(1, 1 + n));
    assert(quote(s) =~= x.subrange(2 + n, x.len() - 1));
    assert(quote(t) =~= y.subrange(2 + n, y.len() - 1));
    lemma_quotes_differ(s, t);
}

/// A filter on a key tells whether the key holds that string.
proof fn lemma_filtered(
    text: Map<Seq<char>, Seq<char>>,
    parent: Seq<char>,
    key: Seq<char>,
    wanted: Seq<char>,
)
    requires
        lacks(key, ':'),
        text.contains_key(joined(parent, key)),
    ensures
        filtered(text, parent, filter_of(key, wanted)) <==> text[joined(parent, key)] == wanted,
{
    let filter = filter_of(key, wanted);
    if filtered(text, parent, filter) {
        let (k, w) = choose|k: Seq<char>, w: Seq<char>|
            lacks(k, ':') && filter == #[trigger] filter_of(k, w) && text.contains_key(
                joined(parent, k),
            ) && text[joined(parent, k)] == w;
        lemma_filters_differ(key, wanted, k, w);
    }
}

pub(crate) proof fn lemma_spliced_around(
    line: Seq<char>,
    i: int,
    n: int,
    hole: Seq<char>,
    s: Seq<char>,
)
    requires
        0 <= i <= n <= line.len(),
        hole.len() > 0,
        hole[0] == '$',
        forall|j: int| i <= j < n ==> line[j] != '$',
    ensures
        spliced(line, i, hole, s) == line.subrange(i, n) + spliced(line, n, hole, s),
    decreases n - i,
{
    if i < n {
        lemma_spliced_around(line, i + 1, n, hole, s);
        if i + hole.len() <= line.len() {
            assert(line.subrange(i, i + hole.len())[0] == line[i]);
        }
        let rest = spliced(line, n, hole, s);
        assert(line.subrange(i, n) =~= seq![line[i]] + line.subrange(i + 1, n));
        assert(line.subrange(i, n) + rest =~= seq![line[i]] + (line.subrange(i + 1, n) + rest));
    } else {
        let rest = spliced(line, n, hole, s);
        assert(line.subrange(i, n) + rest =~= rest);
    }
}

proof fn lemma_nothing_to_splice(line: Seq<char>, s: Seq<char>)
    requires
        lacks(line, '$'),
    ensures
        spliced(line, 0, "$(s)"@, s) == line,
{
    reveal_strlit("$(s)");
    let n = line.len() as int;
    lemma_spliced_around(line, 0, n, "$(s)"@, s);
    assert(line.subrange(0, n) + spliced(line, n, "$(s)"@, s) =~= line);
}

/// The macro's filter with a plain string put in is the filter that asks for the string.
proof fn lemma_spliced_filter(key: Seq<char>, s: Seq<char>)
    requires
        lacks(key, '$'),
        is_plain(s),
    ensures
        spliced("{"@ + key + ":\"$(s)\"}"@, 0, "$(s)"@, s) == filter_of(key, s),
{
    reveal_strlit("{");
    reveal_strlit(":");
    reveal_strlit("}");
    reveal_strlit("$(s)");
    reveal_strlit(":\"$(s)\"}");
    let line = "{"@ + key + ":\"$(s)\"}"@;
    let n = 3 + key.len() as int;
    assert forall|j: int| 0 <= j < n implies line[j] != '$' by {
        if 1 <= j < 1 + key.len() {
            assert(line[j] == key[j - 1]);
        }
    }
    lemma_spliced_around(line, 0, n, "$(s)"@, s);
    assert(line.subrange(n, n + 4) =~= "$(s)"@);
    lemma_spliced_around(line, n + 4, line.len() as int, "$(s)"@, s);
    lemma_plain_is_not_escaped(s);
    assert(line.subrange(0, n) =~= "{"@ + key + ":"@ + seq!['"']);
    assert(line.subrange(n + 4, line.len() as int) =~= seq!['"'] + "}"@);
    assert(spliced(line, line.len() as int, "$(s)"@, s) =~= seq![]);
    assert(spliced(line, 0, "$(s)"@, s) =~= filter_of(key, s));
}

proof fn lemma_rfind(s: Seq<char>, c: char, upto: int)
    requires
        0 <= upto <= s.len(),
    ensures
        ({
            let at = rfind(s, c, upto);
            &&& -1 <= at < upto
            &&& at >= 0 ==> s[at] == c
            &&& forall|j: int| at < j < upto ==> s[j] != c
        }),
    decreases upto,
{
    if upto > 0 && s[upto - 1] != c {
        lemma_rfind(s, c, upto - 1);
    }
}

spec fn data_path(n: u32) -> Seq<char> {
    "mw.tmp.m"@ + nat_text(n as nat)
}

proof fn lemma_data_path(n: u32)
    ensures
        nameable(data_path(n)),
        rfind(data_path(n), '.', data_path(n).len() as int) == 6,
        data_path(n).len() > 8,
        data_path(n)[3] == 't',
        data_path(n)[6] == '.',
{
    reveal_strlit("mw.tmp.m");
    lemma_digits(n as nat);
    let path = data_path(n);
    let digits = nat_text(n as nat);
    assert forall|j: int| 8 <= j < path.len() implies '0' <= #[trigger] path[j] <= '9' by {
        assert(path[j] == digits[j - 8]);
    }
    lemma_rfind(path, '.', path.len() as int);
    let at = rfind(path, '.', path.len() as int);
    assert(path[6] == '.');
    assert(at == 6) by {
        if at < 6 {
            assert(path[6] != '.');
        }
        if at == 7 {
            assert(path[7] == 'm');
        }
    }
    assert(lacks(path, '$'));
    assert(lacks(path.skip(7), ':'));
}

/// The compound and the key that a path is split into: the key holds what the path does.
proof fn lemma_filterable(
    code: Code,
    cx: Lx,
    path: Seq<char>,
    from: int,
    start: Held,
    h: Held,
)
    requires
        nameable(path),
        path.len() > 3,
        path[3] == 'v',
        from <= cx.insts.len(),
        after_all(code, cx.insts, from, start) == Some(h),
        h.text.contains_key(path),
    ensures
        ({
            let (cx1, parent, key) = filterable(cx, path);
            let at = joined(parent, key);
            let ended = after_all(code, cx1.insts, from, start);
            let temp = data_path(cx.data);
            &&& ended is Some
            &&& ended->0.scores == h.scores
            &&& ended->0.text.contains_key(at)
            &&& ended->0.text[at] == h.text[path]
            &&& ended->0.text.remove(temp) == h.text.remove(temp)
            &&& lacks(key, ':')
            &&& lacks(key, '$')
            &&& lacks(parent, '$')
            &&& at == path || at == temp
            &&& from <= cx1.insts.len()
            &&& cx1.generated == cx.generated
        }),
{
    reveal(filterable);
    reveal_strlit(".");
    let (cx1, parent, key) = filterable(cx, path);
    let at = rfind(path, '.', path.len() as int);
    lemma_rfind(path, '.', path.len() as int);
    if 0 <= at && !(path.len() > at + 1 && path.last() == ']') {
        assert(joined(parent, key) =~= path);
        assert forall|i: int| 0 <= i < key.len() implies #[trigger] key[i] != '$' by {
            assert(key[i] == path[at + 1 + i]);
        }
    } else {
        let temp = data_path(cx.data);
        lemma_data_path(cx.data);
        assert(joined(parent, key) =~= temp);
        assert(cx1.insts.drop_last() =~= cx.insts);
        assert forall|i: int| 0 <= i < key.len() implies #[trigger] key[i] != '$' by {
            assert(key[i] == temp[7 + i]);
        }
        let h1 = done(Inst::CopyData(temp, path), h)->0;
        assert(h1.text.remove(temp) =~= h.text.remove(temp));
    }
}

pub(crate) proof fn lemma_var_paths(owner: Seq<char>, binding: Seq<char>, rest: Seq<char>)
    ensures
        (var_path_name(owner, binding) + rest).len() > 8,
        (var_path_name(owner, binding) + rest)[3] == 'v',
{
    reveal_strlit("mw.vars.");
    reveal_strlit(".");
}

proof fn lemma_string_path(f: HirFunction, h: Held, e: Expr)
    requires
        is_held(f, h, e),
        !(e.kind is Str),
    ensures
        string_path(f, e).len() > 8,
        string_path(f, e)[3] == 'v',
{
    match e.kind {
        Kind::Local(local) => {
            let name = crate::mir::rules::local_of(f, local).name;
            lemma_var_paths(f.name, name, seq![]);
            assert(var_path_name(f.name, name) + Seq::<char>::empty() =~= local_path(f, local));
        },
        Kind::Field(place) => {
            let rest = crate::mir::rules::steps_path(place.steps, 0);
            match place.root {
                Root::Local(local) => lemma_var_paths(
                    f.name,
                    crate::mir::rules::local_of(f, local).name,
                    rest,
                ),
                Root::Lent(owner, local, _) => lemma_var_paths(owner, local, rest),
                Root::Entity(_) => {},
            }
        },
        _ => {},
    }
}

/// A literal or a string in a binding needs no command to be named.
proof fn lemma_side(env: Env, cx: Lx, h: Held, e: Expr)
    requires
        is_held(env.function, h, e),
    ensures
        expr_or_copy(env, cx, Type::Str, e) == (
            cx,
            match e.kind {
                Kind::Str(text) => Written::Const(quote(text)),
                _ => Written::Data(string_path(env.function, e)),
            },
        ),
{
    reveal(expr_or_copy);
    match e.kind {
        Kind::Field(place) => {
            assert(check_root(cx, place) == cx);
        },
        _ => {},
    }
}

// ---------------------------------------------------------------------------
// Comparing strings.
// ---------------------------------------------------------------------------

/// What is known before two strings are compared.
pub open spec fn comparable(
    env: Env,
    code: Code,
    cx: Lx,
    from: int,
    start: Held,
    h: Held,
    lhs: Expr,
    rhs: Expr,
) -> bool {
    &&& is_held(env.function, h, lhs)
    &&& is_held(env.function, h, rhs)
    // Between two bindings the right string is spliced into a command.
    &&& lhs.kind is Str || rhs.kind is Str || is_plain(string_of(env.function, h, rhs))
    &&& 0 <= from <= cx.insts.len()
    &&& after_all(code, cx.insts, from, start) == Some(h)
}

/// Whether a comparison came out as `right`, and touched no binding.
pub open spec fn came_out(
    code: Code,
    cx1: Lx,
    v: Value,
    from: int,
    start: Held,
    h: Held,
    right: bool,
) -> bool {
    match after_all(code, cx1.insts, from, start) {
        Some(h1) => {
            &&& from <= cx1.insts.len()
            &&& value_in(v, h1.scores) == bit(right)
            &&& forall|r: Reg| Value::Reg(r) != v ==> #[trigger] h1.scores[r] == h.scores[r]
            &&& keeps_vars(h.text, h1.text)
        },
        None => false,
    }
}

/// Whether the strings in bindings are what they were.
pub open spec fn keeps_vars(a: Map<Seq<char>, Seq<char>>, b: Map<Seq<char>, Seq<char>>) -> bool {
    forall|p: Seq<char>|
        p.len() > 3 && p[3] == 'v' ==> #[trigger] b.contains_key(p) == a.contains_key(p) && (
        a.contains_key(p) ==> b[p] == a[p])
}

proof fn lemma_keeps_vars(
    a: Map<Seq<char>, Seq<char>>,
    b: Map<Seq<char>, Seq<char>>,
    path: Seq<char>,
    text: Seq<char>,
)
    requires
        keeps_vars(a, b),
        path.len() > 3,
        path[3] != 'v',
    ensures
        keeps_vars(a, b.insert(path, text)),
{
    let c = b.insert(path, text);
    assert forall|p: Seq<char>| p.len() > 3 && p[3] == 'v' implies #[trigger] c.contains_key(p)
        == a.contains_key(p) && (a.contains_key(p) ==> c[p] == a[p]) by {
        assert(p != path);
        assert(b.contains_key(p) == a.contains_key(p));
    }
}

proof fn lemma_came_out(
    code: Code,
    cx1: Lx,
    v: Value,
    from: int,
    start: Held,
    h: Held,
    right: bool,
    h1: Held,
)
    requires
        after_all(code, cx1.insts, from, start) == Some(h1),
        from <= cx1.insts.len(),
        value_in(v, h1.scores) == bit(right),
        forall|r: Reg| Value::Reg(r) != v ==> #[trigger] h1.scores[r] == h.scores[r],
        keeps_vars(h.text, h1.text),
    ensures
        came_out(code, cx1, v, from, start, h, right),
{
}

#[verifier::spinoff_prover]
proof fn lemma_matched(
    env: Env,
    code: Code,
    cx: Lx,
    from: int,
    start: Held,
    h: Held,
    dst: Reg,
    path: Seq<char>,
    other: Expr,
    negated: bool,
)
    requires
        nameable(path),
        path.len() > 8,
        path[3] == 'v',
        h.text.contains_key(path),
        is_held(env.function, h, other),
        other.kind is Str || is_plain(string_of(env.function, h, other)),
        0 <= from <= cx.insts.len(),
        after_all(code, cx.insts, from, start) == Some(h),
        ({
            let (cx1, parent, key) = filterable(cx, path);
            let w = expr_or_copy(env, cx, Type::Str, other).1;
            linked(code, string_match(env, cx1, dst, parent, key, w, negated).generated)
        }),
    ensures
        ({
            let (cx1, parent, key) = filterable(cx, path);
            let w = expr_or_copy(env, cx, Type::Str, other).1;
            let cx2 = string_match(env, cx1, dst, parent, key, w, negated);
            came_out(
                code,
                cx2,
                Value::Reg(dst),
                from,
                start,
                h,
                (h.text[path] == string_of(env.function, h, other)) != negated,
            )
        }),
{
    reveal(string_match);
    reveal(macro_helper);
    reveal_strlit("mw.args.s");
    lemma_side(env, cx, h, other);
    lemma_filterable(code, cx, path, from, start, h);
    lemma_data_path(cx.data);
    let temp = data_path(cx.data);
    let (cx1, parent, key) = filterable(cx, path);
    let w = expr_or_copy(env, cx, Type::Str, other).1;
    let cx2 = string_match(env, cx1, dst, parent, key, w, negated);
    let h1 = after_all(code, cx1.insts, from, start)->0;
    let at = joined(parent, key);
    let wanted = string_of(env.function, h, other);
    assert forall|p: Seq<char>| p.len() > 3 && p[3] == 'v' implies #[trigger] h1.text.contains_key(
        p,
    ) == h.text.contains_key(p) && (h.text.contains_key(p) ==> h1.text[p] == h.text[p]) by {
        assert(p != temp);
        assert(h1.text.remove(temp).contains_key(p) == h1.text.contains_key(p));
        assert(h.text.remove(temp).contains_key(p) == h.text.contains_key(p));
        assert(h.text.contains_key(p) ==> h1.text.remove(temp)[p] == h1.text[p]);
        assert(h.text.contains_key(p) ==> h.text.remove(temp)[p] == h.text[p]);
    }
    assert(keeps_vars(h.text, h1.text));
    match other.kind {
        Kind::Str(text) => {
            assert(cx2.insts.drop_last() =~= cx1.insts);
            assert("{"@ + key + ":"@ + quote(text) + "}"@ == filter_of(key, text));
            lemma_filtered(h1.text, parent, key, text);
            let c = Cond::Data(parent, filter_of(key, text), negated);
            assert(cx2.insts.last() == Inst::StoreCond(dst, c));
            let h2 = Held { scores: h1.scores.insert(dst, bit(tested(c, h1))), ..h1 };
            assert(after_all(code, cx2.insts, from, start) == Some(h2));
            assert(tested(c, h1) == ((h.text[path] == wanted) != negated));
            assert(value_in(Value::Reg(dst), h2.scores) == bit(
                (h.text[path] == wanted) != negated,
            ));
            assert forall|r: Reg| Value::Reg(r) != Value::Reg(dst) implies #[trigger] h2.scores[r]
                == h.scores[r] by {
                assert(r != dst);
            }
            assert(h2.text == h1.text);
            assert(came_out(
                code,
                cx2,
                Value::Reg(dst),
                from,
                start,
                h,
                (h.text[path] == string_of(env.function, h, other)) != negated,
            ));
        },
        _ => {
            let src = string_path(env.function, other);
            lemma_string_path(env.function, h, other);
            let line = Inst::StoreCond(
                dst,
                Cond::Data(parent, "{"@ + key + ":\"$(s)\"}"@, negated),
            );
            let (cxm, helper) = macro_helper(env, cx1, "streq"@, line);
            let copy = Inst::CopyData("mw.args.s"@, src);
            let cxc = cxm.emit(copy);
            assert(cxm.insts == cx1.insts);
            assert(cxc.insts.drop_last() =~= cx1.insts);
            assert(cx2.insts.drop_last() =~= cxc.insts);
            let k = cx1.generated.len() as int;
            assert(cx2.generated[k].path == helper);
            assert(code[helper] == seq![Inst::Macro(Box::new(line))]);
            let hc = done(copy, h1)->0;
            assert(after_all(code, cxc.insts, from, start) == Some(hc));
            assert("mw.args.s"@[3] == 'a');
            assert(at != "mw.args.s"@);
            assert(hc.text["mw.args.s"@] == wanted);
            lemma_nothing_to_splice(parent, wanted);
            lemma_spliced_filter(key, wanted);
            lemma_filtered(hc.text, parent, key, wanted);
            assert(filled(line, wanted) == Some(
                Inst::StoreCond(dst, Cond::Data(parent, filter_of(key, wanted), negated)),
            ));
            let c = Cond::Data(parent, filter_of(key, wanted), negated);
            let h2 = Held { scores: hc.scores.insert(dst, bit(tested(c, hc))), ..hc };
            assert(*Box::new(line) == line);
            assert(told(code, Inst::CallWithArgs(helper), hc) == Some(h2));
            assert(cx2.insts.last() == Inst::CallWithArgs(helper));
            assert(after_all(code, cx2.insts, from, start) == Some(h2));
            assert(tested(c, hc) == ((h.text[path] == wanted) != negated));
            assert(value_in(Value::Reg(dst), h2.scores) == bit(
                (h.text[path] == wanted) != negated,
            ));
            assert forall|r: Reg| Value::Reg(r) != Value::Reg(dst) implies #[trigger] h2.scores[r]
                == h.scores[r] by {
                assert(r != dst);
            }
            assert(from <= cx2.insts.len());
            lemma_keeps_vars(h.text, h1.text, "mw.args.s"@, wanted);
            assert(h2.text == h1.text.insert("mw.args.s"@, wanted));
            let right = (h.text[path] == wanted) != negated;
            lemma_came_out(code, cx2, Value::Reg(dst), from, start, h, right, h2);
        },
    }
}

/// `l == r` on strings comes out as 1 where they are the same string and as 0 where they
/// are not, and `l != r` the other way around.
pub proof fn lemma_comparing_strings_compares_them(
    env: Env,
    code: Code,
    cx: Lx,
    from: int,
    start: Held,
    h: Held,
    e: Expr,
    op: BinaryOp,
    lhs: Expr,
    rhs: Expr,
    into: Option<Reg>,
)
    requires
        e.kind == Kind::Binary(op, Box::new(lhs), Box::new(rhs)),
        op is Eq || op is Ne,
        comparable(env, code, cx, from, start, h, lhs, rhs),
        linked(code, string_compare(env, cx, e, into).0.generated),
    ensures
        ({
            let (cx1, v) = string_compare(env, cx, e, into);
            let same = string_of(env.function, h, lhs) == string_of(env.function, h, rhs);
            came_out(
                code,
                cx1,
                v,
                from,
                start,
                h,
                if op is Eq {
                    same
                } else {
                    !same
                },
            ) && (into is Some && v is Reg ==> v == Value::Reg(into->0))
        }),
{
    reveal(string_compare);
    lemma_side(env, cx, h, lhs);
    lemma_side(env, cx, h, rhs);
    let negated = op is Ne;
    match (lhs.kind, rhs.kind) {
        (Kind::Str(a), Kind::Str(b)) => {
            lemma_quotes_differ(a, b);
        },
        _ => {
            let (cx1, dst) = match into {
                Some(dst) => (cx, dst),
                None => cx.temp(),
            };
            let (held, other) = if lhs.kind is Str {
                (rhs, lhs)
            } else {
                (lhs, rhs)
            };
            lemma_string_path(env.function, h, held);
            lemma_side(env, cx1, h, other);
            let path = string_path(env.function, held);
            let w = expr_or_copy(env, cx1, Type::Str, other).1;
            let (cx2, parent, key) = filterable(cx1, path);
            assert(string_compare(env, cx, e, into) == (
                string_match(env, cx2, dst, parent, key, w, negated),
                Value::Reg(dst),
            ));
            lemma_matched(env, code, cx1, from, start, h, dst, path, other, negated);
        },
    }
}

proof fn lemma_string_binary(env: Env, cx: Lx, e: Expr, op: BinaryOp, lhs: Expr, rhs: Expr)
    requires
        e.kind == Kind::Binary(op, Box::new(lhs), Box::new(rhs)),
        lhs.ty is Str,
    ensures
        binary(env, cx, e) == string_compare(env, cx, e, None),
{
    reveal(binary);
    reveal(string_compare);
}

proof fn lemma_string_operators(env: Env, cx: Lx, e: Expr, op: BinaryOp, lhs: Expr, rhs: Expr)
    requires
        e.kind == Kind::Binary(op, Box::new(lhs), Box::new(rhs)),
        lhs.ty is Str,
    ensures
        expr(env, cx, e) == string_compare(env, cx, e, None),
{
    reveal(expr);
    reveal(binary);
    lemma_string_binary(env, cx, e, op, lhs, rhs);
}

/// The same wherever the comparison stands: as a value, or straight into a register.
pub proof fn lemma_string_comparisons_compute(
    env: Env,
    code: Code,
    cx: Lx,
    from: int,
    start: Held,
    h: Held,
    e: Expr,
    op: BinaryOp,
    lhs: Expr,
    rhs: Expr,
    dst: Reg,
)
    requires
        e.kind == Kind::Binary(op, Box::new(lhs), Box::new(rhs)),
        op is Eq || op is Ne,
        comparable(env, code, cx, from, start, h, lhs, rhs),
        linked(code, expr(env, cx, e).0.generated),
        linked(code, expr_into(env, cx, dst, e).generated),
    ensures
        ({
            let same = string_of(env.function, h, lhs) == string_of(env.function, h, rhs);
            let right = if op is Eq {
                same
            } else {
                !same
            };
            let (cx1, v) = expr(env, cx, e);
            &&& came_out(code, cx1, v, from, start, h, right)
            &&& came_out(
                code,
                expr_into(env, cx, dst, e),
                Value::Reg(dst),
                from,
                start,
                h,
                right,
            )
        }),
{
    reveal(expr_into);
    reveal(string_compare);
    reveal(copy_into);
    assert((*e.kind->Binary_1).ty is Str);
    lemma_string_operators(env, cx, e, op, lhs, rhs);
    lemma_comparing_strings_compares_them(
        env, code, cx, from, start, h, e, op, lhs, rhs, None,
    );
    let (cx1, v) = string_compare(env, cx, e, Some(dst));
    match v {
        Value::Const(n) => {
            let cx2 = copy_into(cx1, dst, v);
            assert(expr_into(env, cx, dst, e) == cx2);
            assert(linked(code, cx1.generated));
            lemma_comparing_strings_compares_them(
                env, code, cx, from, start, h, e, op, lhs, rhs, Some(dst),
            );
            assert(cx2.insts.drop_last() =~= cx1.insts);
            assert(cx2.insts.last() == Inst::Const(dst, n));
            let h1 = after_all(code, cx1.insts, from, start)->0;
            let h2 = Held { scores: h1.scores.insert(dst, n), ..h1 };
            assert(told(code, Inst::Const(dst, n), h1) == Some(h2));
            assert(after_all(code, cx2.insts, from, start) == Some(h2));
            assert forall|r: Reg| Value::Reg(r) != Value::Reg(dst) implies #[trigger] h2.scores[r]
                == h.scores[r] by {
                assert(h1.scores[r] == h.scores[r]);
            }
        },
        Value::Reg(_) => {
            assert(expr_into(env, cx, dst, e) == cx1);
            lemma_comparing_strings_compares_them(
                env, code, cx, from, start, h, e, op, lhs, rhs, Some(dst),
            );
        },
    }
}

/// Of `l == r` and `l != r` exactly one holds: the two results add up to 1.
pub proof fn lemma_equal_or_different(
    env: Env,
    code: Code,
    other_code: Code,
    cx: Lx,
    from: int,
    start: Held,
    h: Held,
    eq: Expr,
    ne: Expr,
    lhs: Expr,
    rhs: Expr,
)
    requires
        eq.kind == Kind::Binary(BinaryOp::Eq, Box::new(lhs), Box::new(rhs)),
        ne.kind == Kind::Binary(BinaryOp::Ne, Box::new(lhs), Box::new(rhs)),
        comparable(env, code, cx, from, start, h, lhs, rhs),
        comparable(env, other_code, cx, from, start, h, lhs, rhs),
        linked(code, string_compare(env, cx, eq, None).0.generated),
        linked(other_code, string_compare(env, cx, ne, None).0.generated),
    ensures
        ({
            let (cx1, v1) = string_compare(env, cx, eq, None);
            let (cx2, v2) = string_compare(env, cx, ne, None);
            let h1 = after_all(code, cx1.insts, from, start);
            let h2 = after_all(other_code, cx2.insts, from, start);
            h1 is Some && h2 is Some && value_in(v1, h1->0.scores) + value_in(v2, h2->0.scores)
                == 1
        }),
{
    lemma_comparing_strings_compares_them(
        env, code, cx, from, start, h, eq, BinaryOp::Eq, lhs, rhs, None,
    );
    lemma_comparing_strings_compares_them(
        env, other_code, cx, from, start, h, ne, BinaryOp::Ne, lhs, rhs, None,
    );
}

// ---------------------------------------------------------------------------
// Joining strings.
// ---------------------------------------------------------------------------

proof fn lemma_escapes_join(a: Seq<char>, b: Seq<char>)
    ensures
        escape(a + b) == escape(a) + escape(b),
    decreases b.len(),
{
    if b.len() == 0 {
        assert(a + b =~= a);
        assert(escape(a) + escape(b) =~= escape(a));
    } else {
        lemma_escapes_join(a, b.drop_last());
        assert((a + b).drop_last() =~= a + b.drop_last());
        assert((a + b).last() == b.last());
        let last = crate::text::escape_char(b.last());
        assert(escape(a) + escape(b.drop_last()) + last =~= escape(a) + (escape(b.drop_last())
            + last));
    }
}

proof fn lemma_unquoted(s: Seq<char>)
    ensures
        unquoted(quote(s)) == s,
{
    assert(quote(s) == quote(s));
    lemma_quotes_differ(s, unquoted(quote(s)));
}

proof fn lemma_joined_around(line: Seq<char>, i: int, n: int, a: Seq<char>, b: Seq<char>)
    requires
        0 <= i <= n <= line.len(),
        forall|j: int| i <= j < n ==> line[j] != '$',
    ensures
        joined_in(line, i, a, b) == line.subrange(i, n) + joined_in(line, n, a, b),
    decreases n - i,
{
    reveal_strlit("$(a)");
    reveal_strlit("$(b)");
    let rest = joined_in(line, n, a, b);
    if i < n {
        lemma_joined_around(line, i + 1, n, a, b);
        if i + 4 <= line.len() {
            assert(line.subrange(i, i + 4)[0] == line[i]);
        }
        assert(line.subrange(i, n) =~= seq![line[i]] + line.subrange(i + 1, n));
        assert(line.subrange(i, n) + rest =~= seq![line[i]] + (line.subrange(i + 1, n) + rest));
    } else {
        assert(line.subrange(i, n) + rest =~= rest);
    }
}

/// One side of a line: a text without arguments, or an argument.
proof fn lemma_joined_side(
    line: Seq<char>,
    i: int,
    side: Seq<char>,
    a: Seq<char>,
    b: Seq<char>,
) -> (put: Seq<char>)
    requires
        0 <= i,
        i + side.len() <= line.len(),
        line.subrange(i, i + side.len()) == side,
        lacks(side, '$') || side == "$(a)"@ || side == "$(b)"@,
    ensures
        joined_in(line, i, a, b) == put + joined_in(line, i + side.len(), a, b),
        put == if side == "$(a)"@ {
            a
        } else if side == "$(b)"@ {
            b
        } else {
            side
        },
{
    reveal_strlit("$(a)");
    reveal_strlit("$(b)");
    let n = i + side.len();
    if side == "$(a)"@ {
        a
    } else if side == "$(b)"@ {
        assert("$(a)"@[2] != "$(b)"@[2]);
        b
    } else {
        assert forall|j: int| i <= j < n implies line[j] != '$' by {
            assert(line.subrange(i, n)[j - i] == line[j]);
            assert(side[j - i] != '$');
        }
        lemma_joined_around(line, i, n, a, b);
        side
    }
}

/// The whole line between its quotes.
proof fn lemma_joined_line(
    left: Seq<char>,
    right: Seq<char>,
    a: Seq<char>,
    b: Seq<char>,
)
    requires
        lacks(left, '$') || left == "$(a)"@,
        lacks(right, '$') || right == "$(b)"@,
    ensures
        joined_in("\""@ + left + right + "\""@, 0, a, b) == seq!['"'] + (if left == "$(a)"@ {
            a
        } else {
            left
        }) + (if right == "$(b)"@ {
            b
        } else {
            right
        }) + seq!['"'],
{
    reveal_strlit("\"");
    reveal_strlit("$(a)");
    reveal_strlit("$(b)");
    let mark = "\""@;
    let line = mark + left + right + mark;
    let n = 1 + left.len() as int;
    let m = n + right.len() as int;
    assert("$(a)"@[0] == '$' && "$(b)"@[0] == '$');
    assert("$(a)"@[2] != "$(b)"@[2]);
    if left == "$(b)"@ {
        assert(left[0] == '$');
    }
    if right == "$(a)"@ {
        assert(right[0] == '$');
    }
    assert(line.subrange(0, 1) =~= mark);
    assert(line.subrange(1, n) =~= left);
    assert(line.subrange(n, m) =~= right);
    assert(line.subrange(m, m + 1) =~= mark);
    assert(lacks(mark, '$'));
    assert(mark != "$(a)"@ && mark != "$(b)"@);
    let p = lemma_joined_side(line, 0, mark, a, b);
    let l = lemma_joined_side(line, 1, left, a, b);
    let r = lemma_joined_side(line, n, right, a, b);
    let q = lemma_joined_side(line, m, mark, a, b);
    assert(joined_in(line, m + 1, a, b) =~= seq![]);
    assert(joined_in(line, 0, a, b) =~= seq!['"'] + l + r + seq!['"']);
}

/// Whether a string can be joined: what is written out holds nothing that a macro would take
/// for an argument, and what is spliced in needs no escaping.
pub open spec fn is_joinable(f: HirFunction, h: Held, e: Expr) -> bool {
    is_held(f, h, e) && match e.kind {
        Kind::Str(text) => lacks(escape(text), '$'),
        _ => is_plain(string_of(f, h, e)),
    }
}

/// `a + b` on strings leaves at the path the one followed by the other.
#[verifier::spinoff_prover]
pub proof fn lemma_joining_strings_joins_them(
    env: Env,
    code: Code,
    cx: Lx,
    from: int,
    start: Held,
    h: Held,
    path: Seq<char>,
    value: Expr,
    lhs: Expr,
    rhs: Expr,
) -> (r: Held)
    requires
        value.kind == Kind::Binary(BinaryOp::Add, Box::new(lhs), Box::new(rhs)),
        is_joinable(env.function, h, lhs),
        is_joinable(env.function, h, rhs),
        lacks(path, '$'),
        0 <= from <= cx.insts.len(),
        after_all(code, cx.insts, from, start) == Some(h),
        linked(code, concat_into(env, cx, path, value).generated),
    ensures
        after_all(code, concat_into(env, cx, path, value).insts, from, start) == Some(r),
        r.text[path] == string_of(env.function, h, lhs) + string_of(env.function, h, rhs),
        r.scores == h.scores,
        forall|p: Seq<char>|
            p != path && p.len() > 3 && p[3] == 'v' && h.text.contains_key(p)
                ==> #[trigger] r.text[p] == h.text[p],
{
    reveal(concat_into);
    reveal(concat_side);
    reveal(macro_helper);
    reveal_strlit("mw.args.a");
    reveal_strlit("mw.args.b");
    reveal_strlit("mw.args.");
    reveal_strlit("a");
    reveal_strlit("b");
    reveal_strlit("$(a)");
    reveal_strlit("$(b)");
    reveal_strlit("$(");
    reveal_strlit(")");
    let f = env.function;
    let (x, y) = (string_of(f, h, lhs), string_of(f, h, rhs));
    assert("mw.args."@ + "a"@ =~= "mw.args.a"@);
    assert("mw.args."@ + "b"@ =~= "mw.args.b"@);
    assert("$("@ + "a"@ + ")"@ =~= "$(a)"@);
    assert("$("@ + "b"@ + ")"@ =~= "$(b)"@);
    let (cx1, left, l_spliced) = concat_side(env, cx, lhs, "a"@);
    lemma_side(env, cx, h, lhs);
    let h1 = match lhs.kind {
        Kind::Str(_) => h,
        _ => {
            lemma_string_path(f, h, lhs);
            let copy = Inst::CopyData("mw.args.a"@, string_path(f, lhs));
            assert(cx1.insts.drop_last() =~= cx.insts);
            assert(cx1.insts.last() == copy);
            Held { text: h.text.insert("mw.args.a"@, x), ..h }
        },
    };
    assert(after_all(code, cx1.insts, from, start) == Some(h1));
    assert(is_held(f, h1, rhs) && string_of(f, h1, rhs) == y) by {
        if !(rhs.kind is Str) {
            lemma_string_path(f, h, rhs);
            assert(string_path(f, rhs) != "mw.args.a"@) by {
                assert("mw.args.a"@[3] == 'a');
            }
        }
    }
    let (cx2, right, r_spliced) = concat_side(env, cx1, rhs, "b"@);
    lemma_side(env, cx1, h1, rhs);
    let h2 = match rhs.kind {
        Kind::Str(_) => h1,
        _ => {
            lemma_string_path(f, h1, rhs);
            let copy = Inst::CopyData("mw.args.b"@, string_path(f, rhs));
            assert(cx2.insts.drop_last() =~= cx1.insts);
            assert(cx2.insts.last() == copy);
            Held { text: h1.text.insert("mw.args.b"@, y), ..h1 }
        },
    };
    assert(after_all(code, cx2.insts, from, start) == Some(h2));
    let text = "\""@ + left + right + "\""@;
    let write = Inst::SetValue(path, text);
    let end = concat_into(env, cx, path, value);
    reveal_strlit("\"");
    lemma_escapes_join(x, y);
    lemma_unquoted(x + y);
    if !l_spliced && !r_spliced {
        assert(end.insts.drop_last() =~= cx2.insts);
        assert(end.insts.last() == write);
        assert(text =~= quote(x + y));
        let r = Held { text: h2.text.insert(path, x + y), ..h2 };
        assert(told(code, write, h2) == Some(r));
        r
    } else {
        let (cx3, helper) = macro_helper(env, cx2, "concat"@, write);
        assert(end.insts.drop_last() =~= cx2.insts);
        assert(end.insts.last() == Inst::CallWithArgs(helper));
        let k = cx2.generated.len() as int;
        assert(end.generated[k].path == helper);
        assert(code[helper] == seq![Inst::Macro(Box::new(write))]);
        let (a, b) = (h2.text["mw.args.a"@], h2.text["mw.args.b"@]);
        assert("mw.args.a"@[8] != "mw.args.b"@[8]);
        if l_spliced {
            lemma_plain_is_not_escaped(x);
            assert(a == x);
        }
        if r_spliced {
            lemma_plain_is_not_escaped(y);
            assert(b == y);
        }
        lemma_joined_around(path, 0, path.len() as int, a, b);
        assert(joined_in(path, 0, a, b) =~= path);
        assert(!l_spliced ==> left != "$(a)"@) by {
            assert("$(a)"@[0] == '$');
        }
        assert(!r_spliced ==> right != "$(b)"@) by {
            assert("$(b)"@[0] == '$');
        }
        lemma_joined_line(left, right, a, b);
        assert(joined_in(text, 0, a, b) =~= quote(x + y));
        let r = Held { text: h2.text.insert(path, x + y), ..h2 };
        assert(told(code, Inst::CallWithArgs(helper), h2) == Some(r));
        assert forall|p: Seq<char>|
            p != path && p.len() > 3 && p[3] == 'v' && h.text.contains_key(
                p,
            ) implies #[trigger] r.text[p] == h.text[p] by {
            assert("mw.args.a"@[3] == 'a' && "mw.args.b"@[3] == 'a');
        }
        r
    }
}

} // verus!

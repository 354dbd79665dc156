//! Running a project's tests: what an interpreter has to load, and what came of a run.
//!
//! A test is a function called with no executor. A check that fails says so with a
//! `tellraw`, and whatever the interpreter could not do it says as a diagnostic. Either one
//! is a failure.

use vstd::prelude::*;

use crate::map::TextMap;
use crate::mir::rules::complaint;
use crate::project::{function_id, function_in};
use crate::text::{
    cat2, cat3, cat5, chars, escape, nat_text, own, same, show_u64, slice, texts,
};

verus! {

/// Something a command did that reaches the game: the command, and what it was given.
#[derive(Debug, Clone, PartialEq, Eq)]
pub struct Effect {
    pub name: String,
    pub args: String,
}

impl Effect {
    pub open spec fn view(&self) -> (Seq<char>, Seq<char>) {
        (self.name@, self.args@)
    }
}

/// A test that ran, and what was said against it.
#[derive(Debug, Clone, PartialEq, Eq)]
pub struct Tested {
    pub id: String,
    pub said: Vec<String>,
}

impl Tested {
    pub open spec fn view(&self) -> (Seq<char>, Seq<Seq<char>>) {
        (self.id@, texts(self.said@))
    }
}

pub open spec fn effects_view(v: Seq<Effect>) -> Seq<(Seq<char>, Seq<char>)> {
    Seq::new(v.len(), |i: int| v[i]@)
}

pub open spec fn tested_view(v: Seq<Tested>) -> Seq<(Seq<char>, Seq<Seq<char>>)> {
    Seq::new(v.len(), |i: int| v[i]@)
}

pub open spec fn loads_view(v: Seq<(String, String)>) -> Seq<(Seq<char>, Seq<char>)> {
    Seq::new(v.len(), |i: int| (v[i].0@, v[i].1@))
}

/// Whether `p` occurs in `s`.
pub open spec fn mentions(s: Seq<char>, p: Seq<char>) -> bool {
    exists|i: int| occurs_at(s, p, i)
}

pub open spec fn occurs_at(s: Seq<char>, p: Seq<char>, i: int) -> bool {
    0 <= i && i + p.len() <= s.len() && s.subrange(i, i + p.len()) == p
}

/// Whether an effect is a check that failed.
pub open spec fn is_complaint(effect: (Seq<char>, Seq<char>)) -> bool {
    effect.0 == "tellraw"@ && mentions(effect.1, "minewell: "@)
}

/// What the checks that failed said, from the `i`th effect on.
pub open spec fn complaints(effects: Seq<(Seq<char>, Seq<char>)>, i: int) -> Seq<Seq<char>>
    decreases effects.len() - i,
{
    if i < 0 || i >= effects.len() {
        seq![]
    } else if is_complaint(effects[i]) {
        seq![effects[i].1] + complaints(effects, i + 1)
    } else {
        complaints(effects, i + 1)
    }
}

/// The lines said against a test, from the `i`th on.
pub open spec fn said_lines(said: Seq<Seq<char>>, i: int) -> Seq<char>
    decreases said.len() - i,
{
    if i < 0 || i >= said.len() {
        seq![]
    } else {
        "    "@ + said[i] + "\n"@ + said_lines(said, i + 1)
    }
}

/// How a test is reported.
pub open spec fn test_text(test: (Seq<char>, Seq<Seq<char>>)) -> Seq<char> {
    if test.1.len() == 0 {
        "test "@ + test.0 + " ... ok\n"@
    } else {
        "test "@ + test.0 + " ... FAILED\n"@ + said_lines(test.1, 0)
    }
}

pub open spec fn tests_text(tests: Seq<(Seq<char>, Seq<Seq<char>>)>, i: int) -> Seq<char>
    decreases tests.len() - i,
{
    if i < 0 || i >= tests.len() {
        seq![]
    } else {
        test_text(tests[i]) + tests_text(tests, i + 1)
    }
}

/// How many of the tests from the `i`th on failed.
pub open spec fn failures(tests: Seq<(Seq<char>, Seq<Seq<char>>)>, i: int) -> nat
    decreases tests.len() - i,
{
    if i < 0 || i >= tests.len() {
        0
    } else if tests[i].1.len() == 0 {
        failures(tests, i + 1)
    } else {
        failures(tests, i + 1) + 1
    }
}

/// How a whole run is reported.
pub open spec fn report_text(tests: Seq<(Seq<char>, Seq<Seq<char>>)>) -> Seq<char> {
    if tests.len() == 0 {
        "no #[test] functions\n"@
    } else {
        let failed = failures(tests, 0);
        "running "@ + nat_text(tests.len()) + " test(s)\n"@ + tests_text(tests, 0)
            + "\ntest result: "@ + (if failed == 0 {
            "ok"@
        } else {
            "FAILED"@
        }) + ". "@ + nat_text((tests.len() - failed) as nat) + " passed; "@ + nat_text(failed)
            + " failed\n"@
    }
}

/// The functions among a pack's files from the `i`th on: what each is called, and its
/// commands.
pub open spec fn functions_among(files: Seq<(Seq<char>, Seq<char>)>, i: int) -> Seq<
    (Seq<char>, Seq<char>),
>
    decreases files.len() - i,
{
    if i < 0 || i >= files.len() {
        seq![]
    } else {
        match function_in(files[i].0) {
            Some(id) => seq![(id, files[i].1)] + functions_among(files, i + 1),
            None => functions_among(files, i + 1),
        }
    }
}

// ---------------------------------------------------------------------------
// Finding it.
// ---------------------------------------------------------------------------

/// Whether `p` occurs in `s`.
fn contains(s: &str, p: &str) -> (r: bool)
    ensures
        r == mentions(s@, p@),
{
    let v = chars(s);
    let n: usize = chars(p).len();
    let size: usize = v.len();
    if size < n {
        return false;
    }
    let last: usize = size - n;
    let mut i: usize = 0;
    while i <= last
        invariant
            v@ == s@,
            n == p@.len(),
            size == v@.len(),
            last == size - n,
            i <= last + 1,
            forall|k: int| 0 <= k < i ==> !occurs_at(s@, p@, k),
        decreases last + 1 - i,
    {
        let part = slice(&v, i, i + n);
        if same(part.as_str(), p) {
            proof {
                assert(occurs_at(s@, p@, i as int));
            }
            return true;
        }
        proof {
            assert(!occurs_at(s@, p@, i as int));
        }
        if i == last {
            proof {
                assert forall|k: int| !occurs_at(s@, p@, k) by {
                    if 0 <= k && k <= last {
                        assert(!occurs_at(s@, p@, k));
                    }
                }
            }
            return false;
        }
        i += 1;
    }
    false
}

/// What was said against a test: the checks that failed, and what could not be done.
pub fn said(effects: &Vec<Effect>, diagnostics: &Vec<String>) -> (r: Vec<String>)
    ensures
        texts(r@) == complaints(effects_view(effects@), 0) + texts(diagnostics@),
{
    let ghost all = effects_view(effects@);
    let mut out: Vec<String> = Vec::new();
    let mut i: usize = 0;
    proof {
        assert(texts(out@) + complaints(all, 0) =~= complaints(all, 0));
    }
    while i < effects.len()
        invariant
            i <= effects@.len(),
            all == effects_view(effects@),
            texts(out@) + complaints(all, i as int) == complaints(all, 0),
        decreases effects.len() - i,
    {
        let ghost before = texts(out@);
        proof {
            assert(all[i as int] == effects@[i as int]@);
        }
        if same(effects[i].name.as_str(), "tellraw") && contains(
            effects[i].args.as_str(),
            "minewell: ",
        ) {
            out.push(own(effects[i].args.as_str()));
            proof {
                assert(texts(out@) =~= before.push(all[i as int].1));
                assert(before.push(all[i as int].1) + complaints(all, i + 1) =~= before + (seq![
                    all[i as int].1,
                ] + complaints(all, i + 1)));
            }
        }
        i += 1;
    }
    proof {
        assert(texts(out@) =~= complaints(all, 0));
        assert(texts(out@) + texts(diagnostics@).take(0) =~= texts(out@));
    }
    let mut j: usize = 0;
    while j < diagnostics.len()
        invariant
            j <= diagnostics@.len(),
            texts(out@) == complaints(all, 0) + texts(diagnostics@).take(j as int),
        decreases diagnostics.len() - j,
    {
        let ghost before = texts(out@);
        out.push(own(diagnostics[j].as_str()));
        proof {
            assert(texts(out@) =~= before.push(diagnostics@[j as int]@));
            assert(texts(diagnostics@).take(j + 1) =~= texts(diagnostics@).take(j as int).push(
                diagnostics@[j as int]@,
            ));
            assert(texts(out@) =~= complaints(all, 0) + texts(diagnostics@).take(j + 1));
        }
        j += 1;
    }
    proof {
        assert(texts(diagnostics@).take(j as int) =~= texts(diagnostics@));
    }
    out
}

/// How one test is reported.
fn show_test(test: &Tested) -> (r: String)
    ensures
        r@ == test_text(test@),
{
    if test.said.len() == 0 {
        return cat3("test ", test.id.as_str(), " ... ok\n");
    }
    let ghost said = texts(test.said@);
    let mut out = cat3("test ", test.id.as_str(), " ... FAILED\n");
    let mut i: usize = 0;
    while i < test.said.len()
        invariant
            i <= test.said@.len(),
            said == texts(test.said@),
            out@ + said_lines(said, i as int) == "test "@ + test.id@ + " ... FAILED\n"@ + said_lines(
                said,
                0,
            ),
        decreases test.said.len() - i,
    {
        let line = cat3("    ", test.said[i].as_str(), "\n");
        let ghost before = out@;
        out = cat2(out.as_str(), line.as_str());
        proof {
            assert(said[i as int] == test.said@[i as int]@);
            assert(out@ + said_lines(said, i + 1) =~= before + (line@ + said_lines(said, i + 1)));
        }
        i += 1;
    }
    proof {
        assert(out@ + said_lines(said, i as int) =~= out@);
    }
    out
}

/// What a run of the tests comes to: its report, and whether all of them passed.
pub fn report(tests: &Vec<Tested>) -> (r: (String, bool))
    ensures
        r.0@ == report_text(tested_view(tests@)),
        r.1 == (failures(tested_view(tests@), 0) == 0),
{
    let ghost all = tested_view(tests@);
    if tests.len() == 0 {
        return (own("no #[test] functions\n"), true);
    }
    let mut lines = String::new();
    let mut failed: usize = 0;
    let mut i: usize = 0;
    proof {
        assert(lines@ + tests_text(all, 0) =~= tests_text(all, 0));
    }
    while i < tests.len()
        invariant
            i <= tests@.len(),
            all == tested_view(tests@),
            failed <= i,
            failed + failures(all, i as int) == failures(all, 0),
            lines@ + tests_text(all, i as int) == tests_text(all, 0),
        decreases tests.len() - i,
    {
        let ghost before = lines@;
        let one = show_test(&tests[i]);
        lines = cat2(lines.as_str(), one.as_str());
        if tests[i].said.len() > 0 {
            failed += 1;
        }
        proof {
            assert(all[i as int] == tests@[i as int]@);
            assert(all[i as int].1.len() == tests@[i as int].said@.len());
            assert(lines@ + tests_text(all, i + 1) =~= before + (one@ + tests_text(all, i + 1)));
        }
        i += 1;
    }
    proof {
        assert(lines@ + tests_text(all, i as int) =~= lines@);
    }
    let ran = show_u64(tests.len() as u64);
    let passed = show_u64((tests.len() - failed) as u64);
    let lost = show_u64(failed as u64);
    let head = cat5(
        "running ",
        ran.as_str(),
        " test(s)\n",
        lines.as_str(),
        "\ntest result: ",
    );
    let verdict = if failed == 0 {
        "ok"
    } else {
        "FAILED"
    };
    let tail = cat5(". ", passed.as_str(), " passed; ", lost.as_str(), " failed\n");
    let out = cat3(head.as_str(), verdict, tail.as_str());
    proof {
        assert(out@ =~= report_text(all));
    }
    (out, failed == 0)
}

/// What an interpreter has to load: the functions of a pack.
pub fn loads(files: &TextMap) -> (r: Vec<(String, String)>)
    ensures
        loads_view(r@) == functions_among(files@, 0),
{
    let ghost all = files@;
    let mut out: Vec<(String, String)> = Vec::new();
    let mut i: usize = 0;
    proof {
        assert(loads_view(out@) + functions_among(all, 0) =~= functions_among(all, 0));
    }
    while i < files.len()
        invariant
            i <= all.len(),
            all == files@,
            loads_view(out@) + functions_among(all, i as int) == functions_among(all, 0),
        decreases all.len() - i,
    {
        let ghost before = loads_view(out@);
        let (path, text) = files.entry(i);
        if let Some(id) = function_id(path) {
            let ghost one = (id@, text@);
            out.push((id, own(text)));
            proof {
                assert(loads_view(out@) =~= before.push(one));
                assert(before.push(one) + functions_among(all, i + 1) =~= before + (seq![one]
                    + functions_among(all, i + 1)));
            }
        }
        i += 1;
    }
    proof {
        assert(loads_view(out@) =~= functions_among(all, 0));
    }
    out
}

// ---------------------------------------------------------------------------
// What holds of every run.
// ---------------------------------------------------------------------------

proof fn lemma_escape_in_parts(a: Seq<char>, b: Seq<char>)
    ensures
        escape(a + b) == escape(a) + escape(b),
    decreases b.len(),
{
    if b.len() == 0 {
        assert(a + b =~= a);
        assert(escape(a) + escape(b) =~= escape(a));
    } else {
        lemma_escape_in_parts(a, b.drop_last());
        assert((a + b).drop_last() =~= a + b.drop_last());
        assert(escape(a + b) =~= escape(a) + escape(b));
    }
}

proof fn lemma_plain_text_stays(a: Seq<char>)
    requires
        forall|i: int| 0 <= i < a.len() ==> a[i] != '\\' && a[i] != '"',
    ensures
        escape(a) == a,
    decreases a.len(),
{
    if a.len() > 0 {
        lemma_plain_text_stays(a.drop_last());
        assert(escape(a) =~= a);
    } else {
        assert(escape(a) =~= a);
    }
}

/// A check that fails is heard: the command it leaves behind is one that counts against
/// the test, whatever its message.
pub proof fn lemma_a_failing_check_is_heard(message: Option<Seq<char>>)
    ensures
        complaint(message).take(8) == "tellraw "@,
        is_complaint(("tellraw"@, complaint(message).skip(8))),
{
    let shown = match message {
        Some(message) => message,
        None => "a check failed"@,
    };
    let mark = "minewell: "@;
    let head = "tellraw @a {\"text\":"@;
    reveal_strlit("minewell: ");
    reveal_strlit("tellraw ");
    reveal_strlit("tellraw @a {\"text\":");
    lemma_escape_in_parts(mark, shown);
    lemma_plain_text_stays(mark);
    let said = complaint(message);
    assert(said =~= head + seq!['"'] + mark + escape(shown) + seq!['"'] + "}"@);
    assert(said.take(8) =~= "tellraw "@);
    let args = said.skip(8);
    let at = head.len() - 8 + 1;
    assert(args.subrange(at, at + mark.len()) =~= mark);
    assert(occurs_at(args, mark, at));
}

/// A run passes exactly where nothing was said against any test.
pub proof fn lemma_a_run_passes_where_nothing_was_said(
    tests: Seq<(Seq<char>, Seq<Seq<char>>)>,
    i: int,
)
    requires
        0 <= i <= tests.len(),
    ensures
        failures(tests, i) == 0 <==> forall|k: int|
            i <= k < tests.len() ==> (#[trigger] tests[k]).1.len() == 0,
    decreases tests.len() - i,
{
    if i < tests.len() {
        lemma_a_run_passes_where_nothing_was_said(tests, i + 1);
        if failures(tests, i) != 0 && tests[i].1.len() == 0 {
            let k = choose|k: int| i + 1 <= k < tests.len() && (#[trigger] tests[k]).1.len() != 0;
            assert(i <= k);
        }
    }
}

} // verus!

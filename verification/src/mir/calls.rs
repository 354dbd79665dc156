//! The call graph, and which calls of it are recursive.

use vstd::prelude::*;
use vstd::set_lib::{lemma_int_range, lemma_len_subset, set_int_range};

use crate::hir::model::Function as HirFunction;
use crate::hir::{
    arms_view, exprs_view, functions_view, parts_view, steps_view, stmts_view, Arm, Expr, ExprKind,
    FnId, Function, Place, RawPart, Scrutinee, Step, Stmt,
};
use crate::mir::rules;

verus! {

fn add_all(out: &mut Vec<u32>, more: Vec<u32>)
    ensures
        final(out)@ == old(out)@ + more@,
{
    let mut more = more;
    out.append(&mut more);
}

/// The functions a statement list calls, by number.
pub(crate) fn calls_of(stmts: &Vec<Stmt>) -> (r: Vec<u32>)
    ensures
        r@ == rules::calls_of(stmts_view(stmts@), 0),
    decreases stmts, 0int, 1int,
{
    let ghost all = stmts_view(stmts@);
    let mut out: Vec<u32> = Vec::new();
    let mut i: usize = 0;
    proof {
        assert(out@ + rules::calls_of(all, 0) =~= rules::calls_of(all, 0));
    }
    while i < stmts.len()
        invariant
            i <= stmts@.len(),
            all == stmts_view(stmts@),
            out@ + rules::calls_of(all, i as int) == rules::calls_of(all, 0),
        decreases stmts.len() - i,
    {
        proof {
            reveal(rules::calls_of);
            reveal(rules::stmt_calls);
            assert(decreases_to!(stmts => stmts[i as int]));
            assert(all[i as int] == stmts@[i as int]@);
        }
        let ghost before = out@;
        let more = stmt_calls(&stmts[i]);
        let ghost shown = more@;
        add_all(&mut out, more);
        proof {
            assert(out@ + rules::calls_of(all, i + 1) =~= before + (shown + rules::calls_of(
                all,
                i + 1,
            )));
        }
        i += 1;
    }
    proof {
        reveal(rules::calls_of);
        assert(out@ + rules::calls_of(all, i as int) =~= out@);
    }
    out
}

fn stmt_calls(s: &Stmt) -> (r: Vec<u32>)
    ensures
        r@ == rules::stmt_calls(s@),
    decreases s, 0int, 0int,
{
    proof {
        reveal(rules::stmt_calls);
        reveal(rules::calls_of);
        reveal(rules::calls_in);
        reveal(rules::arms_calls);
        reveal(rules::all_calls);
        reveal(rules::steps_calls);
        s.unfold();
    }
    match s {
        Stmt::Raw(raw) => parts_calls(&raw.parts),
        Stmt::Let { value, .. } => calls_in(value),
        Stmt::Push { place, value, .. } => {
            let mut out = place_calls(place);
            add_all(&mut out, calls_in(value));
            out
        },
        Stmt::Assign { place, value, .. } => {
            let mut out = place_calls(place);
            add_all(&mut out, calls_in(value));
            out
        },
        Stmt::Assert { cond, .. } => calls_in(cond),
        Stmt::Return { value, .. } => match value {
            Some(value) => calls_in(value),
            None => {
                let r: Vec<u32> = Vec::new();
                proof {
                    assert(r@ =~= seq![]);
                }
                r
            },
        },
        Stmt::CallFor { callee, args, .. } => {
            let mut out: Vec<u32> = Vec::new();
            out.push(callee.0);
            proof {
                assert(out@ =~= seq![callee.0]);
            }
            add_all(&mut out, all_calls(args));
            out
        },
        Stmt::If { cond, taken, otherwise, .. } => {
            let mut out = calls_in(cond);
            add_all(&mut out, calls_of(taken));
            match otherwise {
                Some(otherwise) => {
                    add_all(&mut out, calls_of(otherwise));
                },
                None => {
                    proof {
                        assert(out@ + Seq::<u32>::empty() =~= out@);
                    }
                },
            }
            out
        },
        Stmt::Loop { cond, body, .. } => {
            let mut out: Vec<u32> = match cond {
                Some(cond) => calls_in(cond),
                None => Vec::new(),
            };
            proof {
                if *cond is None {
                    assert(out@ =~= seq![]);
                }
            }
            add_all(&mut out, calls_of(body));
            out
        },
        Stmt::Match { scrutinee, arms, .. } => {
            let mut out = match scrutinee {
                Scrutinee::Place(place) => place_calls(place),
                Scrutinee::Outcome(e) => calls_in(e),
            };
            add_all(&mut out, arms_calls(arms));
            out
        },
        Stmt::ForVec { source, body, .. } => {
            let mut out = place_calls(source);
            add_all(&mut out, calls_of(body));
            out
        },
        Stmt::Context { body, .. } => calls_of(body),
        _ => {
            let r: Vec<u32> = Vec::new();
            proof {
                assert(r@ =~= seq![]);
            }
            r
        },
    }
}

fn arms_calls(arms: &Vec<Arm>) -> (r: Vec<u32>)
    ensures
        r@ == rules::arms_calls(arms_view(arms@), 0),
    decreases arms, 0int, 1int,
{
    let ghost all = arms_view(arms@);
    let mut out: Vec<u32> = Vec::new();
    let mut i: usize = 0;
    proof {
        assert(out@ + rules::arms_calls(all, 0) =~= rules::arms_calls(all, 0));
    }
    while i < arms.len()
        invariant
            i <= arms@.len(),
            all == arms_view(arms@),
            out@ + rules::arms_calls(all, i as int) == rules::arms_calls(all, 0),
        decreases arms.len() - i,
    {
        proof {
            reveal(rules::arms_calls);
            reveal(rules::calls_of);
            assert(decreases_to!(arms => arms[i as int]));
            assert(decreases_to!(arms[i as int] => arms[i as int].body));
            assert(all[i as int] == arms@[i as int]@);
            arms@[i as int].unfold();
        }
        let ghost before = out@;
        let more = calls_of(&arms[i].body);
        let ghost shown = more@;
        add_all(&mut out, more);
        proof {
            assert(out@ + rules::arms_calls(all, i + 1) =~= before + (shown + rules::arms_calls(
                all,
                i + 1,
            )));
        }
        i += 1;
    }
    proof {
        reveal(rules::arms_calls);
        assert(out@ + rules::arms_calls(all, i as int) =~= out@);
    }
    out
}

fn parts_calls(parts: &Vec<RawPart>) -> (r: Vec<u32>)
    ensures
        r@ == rules::parts_calls(parts_view(parts@), 0),
    decreases parts, 0int, 1int,
{
    let ghost all = parts_view(parts@);
    let mut out: Vec<u32> = Vec::new();
    let mut i: usize = 0;
    proof {
        assert(out@ + rules::parts_calls(all, 0) =~= rules::parts_calls(all, 0));
    }
    while i < parts.len()
        invariant
            i <= parts@.len(),
            all == parts_view(parts@),
            out@ + rules::parts_calls(all, i as int) == rules::parts_calls(all, 0),
        decreases parts.len() - i,
    {
        proof {
            reveal(rules::parts_calls);
            reveal(rules::calls_in);
            assert(decreases_to!(parts => parts[i as int]));
            assert(all[i as int] == parts@[i as int]@);
        }
        let ghost before = out@;
        let more: Vec<u32> = match &parts[i] {
            RawPart::Value(e) => calls_in(e),
            RawPart::Lit(_) => Vec::new(),
        };
        let ghost shown = more@;
        add_all(&mut out, more);
        proof {
            if parts@[i as int] is Lit {
                assert(shown =~= seq![]);
            }
            assert(out@ + rules::parts_calls(all, i + 1) =~= before + (shown
                + rules::parts_calls(all, i + 1)));
        }
        i += 1;
    }
    proof {
        reveal(rules::parts_calls);
        assert(out@ + rules::parts_calls(all, i as int) =~= out@);
    }
    out
}

/// The calls in the indices of a place that are only known at runtime.
fn place_calls(place: &Place) -> (r: Vec<u32>)
    ensures
        r@ == rules::steps_calls(place@.steps, 0),
    decreases place, 0int, 2int,
{
    proof {
        place.unfold();
        assert(decreases_to!(place => place.steps));
    }
    let ghost all = steps_view(place.steps@);
    let steps = &place.steps;
    let mut out: Vec<u32> = Vec::new();
    let mut i: usize = 0;
    proof {
        assert(out@ + rules::steps_calls(all, 0) =~= rules::steps_calls(all, 0));
    }
    while i < steps.len()
        invariant
            i <= steps@.len(),
            *steps == place.steps,
            all == steps_view(steps@),
            out@ + rules::steps_calls(all, i as int) == rules::steps_calls(all, 0),
        decreases steps.len() - i,
    {
        proof {
            reveal(rules::steps_calls);
            reveal(rules::calls_in);
            assert(decreases_to!(place => place.steps));
            assert(decreases_to!(place.steps => place.steps[i as int]));
            assert(all[i as int] == steps@[i as int]@);
            steps@[i as int].unfold();
        }
        let ghost before = out@;
        let more: Vec<u32> = match &steps[i] {
            Step::At(index) => calls_in(index),
            _ => Vec::new(),
        };
        let ghost shown = more@;
        add_all(&mut out, more);
        proof {
            if !(steps@[i as int] is At) {
                assert(shown =~= seq![]);
            }
            assert(out@ + rules::steps_calls(all, i + 1) =~= before + (shown
                + rules::steps_calls(all, i + 1)));
        }
        i += 1;
    }
    proof {
        reveal(rules::steps_calls);
        assert(out@ + rules::steps_calls(all, i as int) =~= out@);
    }
    out
}

pub(crate) fn calls_in(e: &Expr) -> (r: Vec<u32>)
    ensures
        r@ == rules::calls_in(e@),
    decreases e, 0int, 0int,
{
    proof {
        reveal(rules::calls_in);
        reveal(rules::all_calls);
        reveal(rules::steps_calls);
        e.unfold();
    }
    match &e.kind {
        ExprKind::Call { callee, args } => {
            let mut out: Vec<u32> = Vec::new();
            out.push(callee.0);
            proof {
                assert(out@ =~= seq![callee.0]);
            }
            add_all(&mut out, all_calls(args));
            out
        },
        ExprKind::Unary(_, operand) => calls_in(operand),
        ExprKind::Binary(_, lhs, rhs) => {
            let mut out = calls_in(lhs);
            add_all(&mut out, calls_in(rhs));
            out
        },
        ExprKind::Struct { fields, .. } => all_calls(fields),
        ExprKind::Enum { fields, .. } => all_calls(fields),
        ExprKind::List { values, .. } => all_calls(values),
        ExprKind::AsNbt { value, .. } => calls_in(value),
        ExprKind::Present(value) => calls_in(value),
        ExprKind::Try(value) => calls_in(value),
        ExprKind::Expect { value, .. } => calls_in(value),
        ExprKind::Field(place) => place_calls(place),
        ExprKind::Len(place) => place_calls(place),
        ExprKind::ReadScaled { place, .. } => place_calls(place),
        ExprKind::View(place) => place_calls(place),
        ExprKind::Slice { place, .. } => place_calls(place),
        _ => {
            let r: Vec<u32> = Vec::new();
            proof {
                assert(r@ =~= seq![]);
            }
            r
        },
    }
}

fn all_calls(args: &Vec<Expr>) -> (r: Vec<u32>)
    ensures
        r@ == rules::all_calls(exprs_view(args@), 0),
    decreases args, 0int, 1int,
{
    let ghost all = exprs_view(args@);
    let mut out: Vec<u32> = Vec::new();
    let mut i: usize = 0;
    proof {
        assert(out@ + rules::all_calls(all, 0) =~= rules::all_calls(all, 0));
    }
    while i < args.len()
        invariant
            i <= args@.len(),
            all == exprs_view(args@),
            out@ + rules::all_calls(all, i as int) == rules::all_calls(all, 0),
        decreases args.len() - i,
    {
        proof {
            reveal(rules::all_calls);
            reveal(rules::calls_in);
            assert(decreases_to!(args => args[i as int]));
            assert(all[i as int] == args@[i as int]@);
        }
        let ghost before = out@;
        let more = calls_in(&args[i]);
        let ghost shown = more@;
        add_all(&mut out, more);
        proof {
            assert(out@ + rules::all_calls(all, i + 1) =~= before + (shown + rules::all_calls(
                all,
                i + 1,
            )));
        }
        i += 1;
    }
    proof {
        reveal(rules::all_calls);
        assert(out@ + rules::all_calls(all, i as int) =~= out@);
    }
    out
}

/// What each function calls.
pub(crate) struct Graph {
    edges: Vec<Vec<u32>>,
}

impl Graph {
    /// Whether these are the calls of those functions.
    pub(crate) closed spec fn of(&self, functions: Seq<HirFunction>) -> bool {
        &&& self.edges@.len() == functions.len()
        &&& forall|i: int|
            0 <= i < functions.len() ==> (#[trigger] self.edges@[i])@ == rules::calls_of(
                functions[i].body,
                0,
            )
    }

    pub(crate) fn new(functions: &Vec<Function>) -> (r: Graph)
        ensures
            r.of(functions_view(functions@)),
    {
        let ghost all = functions_view(functions@);
        let mut edges: Vec<Vec<u32>> = Vec::new();
        let mut i: usize = 0;
        while i < functions.len()
            invariant
                i <= functions@.len(),
                all == functions_view(functions@),
                edges@.len() == i,
                forall|k: int|
                    0 <= k < i ==> (#[trigger] edges@[k])@ == rules::calls_of(all[k].body, 0),
            decreases functions.len() - i,
        {
            edges.push(calls_of(&functions[i].body));
            i += 1;
        }
        Graph { edges }
    }

    /// Whether a call from `a` to `b` is recursive.
    pub(crate) fn recursive(&self, a: FnId, b: FnId, functions: Ghost<Seq<HirFunction>>) -> (r: bool)
        requires
            self.of(functions@),
        ensures
            r == rules::recursive(functions@, a, b),
    {
        a == b || (self.reaches(a.0, b.0, functions) && self.reaches(b.0, a.0, functions))
    }

    /// Adds the callees of `from` that are not in `seen` yet.
    fn add_callees(&self, seen: &mut Vec<u32>, from: u32, functions: Ghost<Seq<HirFunction>>)
        requires
            self.of(functions@),
            old(seen)@.no_duplicates(),
            forall|k: int| 0 <= k < old(seen)@.len() ==> (#[trigger] old(seen)@[k]) < functions@.len(),
        ensures
            final(seen)@.no_duplicates(),
            forall|k: int| 0 <= k < final(seen)@.len() ==> (#[trigger] final(seen)@[k]) < functions@.len(),
            old(seen)@.len() <= final(seen)@.len(),
            final(seen)@.take(old(seen)@.len() as int) == old(seen)@,
            forall|to: u32|
                rules::calls(functions@, from as int, to as int)
                    ==> #[trigger] final(seen)@.contains(to),
            forall|k: int|
                old(seen)@.len() <= k < final(seen)@.len() ==> rules::calls(
                    functions@,
                    from as int,
                    #[trigger] final(seen)@[k] as int,
                ),
    {
        let ghost start = seen@;
        proof {
            assert(seen@.take(start.len() as int) =~= start);
        }
        if (from as usize) >= self.edges.len() {
            return;
        }
        let callees = &self.edges[from as usize];
        let mut i: usize = 0;
        while i < callees.len()
            invariant
                i <= callees@.len(),
                self.of(functions@),
                from < self.edges@.len(),
                callees@ == self.edges@[from as int]@,
                start == old(seen)@,
                seen@.no_duplicates(),
                forall|k: int| 0 <= k < seen@.len() ==> (#[trigger] seen@[k]) < functions@.len(),
                start.len() <= seen@.len(),
                seen@.take(start.len() as int) == start,
                forall|k: int|
                    0 <= k < i && (#[trigger] callees@[k]) < functions@.len() ==> seen@.contains(
                        callees@[k],
                    ),
                forall|k: int|
                    start.len() <= k < seen@.len() ==> rules::calls(
                        functions@,
                        from as int,
                        #[trigger] seen@[k] as int,
                    ),
            decreases callees.len() - i,
        {
            let to: u32 = callees[i];
            if (to as usize) < self.edges.len() {
                let known = has(seen, to);
                if !known {
                    let ghost before = seen@;
                    seen.push(to);
                    proof {
                        assert(seen@.take(start.len() as int) =~= before.take(
                            start.len() as int,
                        ));
                        assert forall|x: u32| before.contains(x) implies seen@.contains(x) by {
                            let k = choose|k: int| 0 <= k < before.len() && before[k] == x;
                            assert(seen@[k] == x);
                        }
                        assert(seen@[before.len() as int] == to);
                        assert(rules::calls(functions@, from as int, to as int)) by {
                            assert(self.edges@[from as int]@ == rules::calls_of(
                                functions@[from as int].body,
                                0,
                            ));
                            assert(callees@[i as int] == to);
                            assert(callees@.contains(to));
                        }
                        assert forall|k: int|
                            start.len() <= k < seen@.len() implies rules::calls(
                            functions@,
                            from as int,
                            #[trigger] seen@[k] as int,
                        ) by {
                            if k < before.len() {
                                assert(before[k] == seen@[k]);
                            }
                        }
                    }
                }
            }
            i += 1;
        }
        proof {
            assert forall|to: u32|
                rules::calls(functions@, from as int, to as int) implies #[trigger] seen@.contains(
                to,
            ) by {
                assert(self.edges@[from as int]@ == rules::calls_of(
                    functions@[from as int].body,
                    0,
                ));
                let k = choose|k: int| 0 <= k < callees@.len() && callees@[k] == to;
                assert(callees@[k] < functions@.len());
            }
        }
    }

    /// Whether running `a` can come to call `b`.
    fn reaches(&self, a: u32, b: u32, functions: Ghost<Seq<HirFunction>>) -> (r: bool)
        requires
            self.of(functions@),
        ensures
            r == rules::reaches(functions@, a as int, b as int),
    {
        let ghost fs = functions@;
        let mut seen: Vec<u32> = Vec::new();
        self.add_callees(&mut seen, a, functions);
        proof {
            assert forall|k: int| 0 <= k < seen@.len() implies rules::reaches(
                fs,
                a as int,
                #[trigger] seen@[k] as int,
            ) by {
                lemma_reaches_one(fs, a as int, seen@[k] as int);
            }
        }
        let mut i: usize = 0;
        while i < seen.len()
            invariant
                i <= seen@.len(),
                fs == functions@,
                self.of(fs),
                seen@.no_duplicates(),
                forall|k: int| 0 <= k < seen@.len() ==> (#[trigger] seen@[k]) < fs.len(),
                forall|k: int|
                    0 <= k < seen@.len() ==> rules::reaches(
                        fs,
                        a as int,
                        #[trigger] seen@[k] as int,
                    ),
                forall|to: u32|
                    rules::calls(fs, a as int, to as int) ==> #[trigger] seen@.contains(to),
                forall|k: int, to: u32|
                    0 <= k < i && rules::calls(fs, seen@[k] as int, to as int)
                        ==> #[trigger] seen@.contains(to) || #[trigger] seen@[k] != seen@[k],
            decreases 0x1_0000_0000int - i,
        {
            let from: u32 = seen[i];
            let ghost before = seen@;
            self.add_callees(&mut seen, from, functions);
            proof {
                assert forall|k: int| 0 <= k < before.len() implies before[k] == seen@[k] by {
                    assert(seen@.take(before.len() as int)[k] == seen@[k]);
                }
                assert forall|x: u32| before.contains(x) implies seen@.contains(x) by {
                    let k = choose|k: int| 0 <= k < before.len() && before[k] == x;
                    assert(seen@[k] == x);
                }
                assert forall|to: u32|
                    rules::calls(fs, a as int, to as int) implies #[trigger] seen@.contains(to) by {
                    assert(before.contains(to));
                }
                assert forall|k: int| 0 <= k < seen@.len() implies rules::reaches(
                    fs,
                    a as int,
                    #[trigger] seen@[k] as int,
                ) by {
                    if k < before.len() {
                        assert(before[k] == seen@[k]);
                    } else {
                        lemma_reaches_more(fs, a as int, from as int, seen@[k] as int);
                    }
                }
                assert forall|k: int, to: u32|
                    0 <= k < i + 1 && rules::calls(
                        fs,
                        seen@[k] as int,
                        to as int,
                    ) implies #[trigger] seen@.contains(to) || #[trigger] seen@[k] != seen@[k] by {
                    if k < i {
                        assert(before[k] == seen@[k]);
                        assert(before.contains(to) || before[k] != before[k]);
                    }
                }
                lemma_bounded(seen@);
            }
            i += 1;
        }
        let found = has(&seen, b);
        proof {
            if found {
                let k = choose|k: int| 0 <= k < seen@.len() && seen@[k] == b;
                assert(rules::reaches(fs, a as int, seen@[k] as int));
            }
            if rules::reaches(fs, a as int, b as int) {
                let path = choose|path: Seq<int>|
                    path.len() >= 2 && path[0] == a as int && path.last() == b as int
                        && #[trigger] rules::is_call_chain(fs, path);
                lemma_closed(fs, seen@, path, path.len() - 1);
            }
        }
        found
    }
}

fn has(seen: &Vec<u32>, n: u32) -> (r: bool)
    ensures
        r == seen@.contains(n),
{
    let mut i: usize = 0;
    while i < seen.len()
        invariant
            i <= seen@.len(),
            forall|k: int| 0 <= k < i ==> seen@[k] != n,
        decreases seen.len() - i,
    {
        if seen[i] == n {
            proof {
                assert(seen@[i as int] == n);
            }
            return true;
        }
        i += 1;
    }
    false
}

/// There are only so many numbers.
proof fn lemma_bounded(seen: Seq<u32>)
    requires
        seen.no_duplicates(),
    ensures
        seen.len() <= 0x1_0000_0000,
{
    let numbers = seen.map_values(|n: u32| n as int);
    assert forall|i: int, j: int|
        0 <= i < numbers.len() && 0 <= j < numbers.len() && i != j implies numbers[i]
        != numbers[j] by {
        assert(seen[i] != seen[j]);
    }
    assert(numbers.no_duplicates());
    numbers.unique_seq_to_set();
    lemma_int_range(0, 0x1_0000_0000);
    assert forall|n: int| numbers.to_set().contains(n) implies set_int_range(
        0,
        0x1_0000_0000,
    ).contains(n) by {
        let i = choose|i: int| 0 <= i < numbers.len() && numbers[i] == n;
        assert(numbers[i] == seen[i] as int);
    }
    lemma_len_subset(numbers.to_set(), set_int_range(0, 0x1_0000_0000));
}

proof fn lemma_reaches_one(fs: Seq<HirFunction>, a: int, b: int)
    requires
        rules::calls(fs, a, b),
    ensures
        rules::reaches(fs, a, b),
{
    let path = seq![a, b];
    assert(rules::is_call_chain(fs, path));
}

proof fn lemma_reaches_more(fs: Seq<HirFunction>, a: int, mid: int, b: int)
    requires
        rules::reaches(fs, a, mid),
        rules::calls(fs, mid, b),
    ensures
        rules::reaches(fs, a, b),
{
    let path = choose|path: Seq<int>|
        path.len() >= 2 && path[0] == a && path.last() == mid && #[trigger] rules::is_call_chain(
            fs,
            path,
        );
    let longer = path.push(b);
    assert forall|i: int| 0 <= i < longer.len() - 1 implies rules::calls(
        fs,
        longer[i],
        #[trigger] longer[i + 1],
    ) by {
        if i < path.len() - 1 {
            assert(path[i + 1] == longer[i + 1]);
        }
    }
    assert(rules::is_call_chain(fs, longer));
    assert(longer.last() == b);
}

/// What is reached stays inside a list that is closed under calling.
proof fn lemma_closed(fs: Seq<HirFunction>, seen: Seq<u32>, path: Seq<int>, n: int)
    requires
        rules::is_call_chain(fs, path),
        1 <= n < path.len(),
        forall|to: u32| rules::calls(fs, path[0], to as int) ==> #[trigger] seen.contains(to),
        forall|k: int, to: u32|
            0 <= k < seen.len() && rules::calls(fs, seen[k] as int, to as int)
                ==> #[trigger] seen.contains(to) || #[trigger] seen[k] != seen[k],
    ensures
        0 <= path[n] <= u32::MAX,
        seen.contains(path[n] as u32),
    decreases n,
{
    assert(rules::calls(fs, path[n - 1], path[n - 1 + 1]));
    let to = path[n] as u32;
    assert(to as int == path[n]);
    if n > 1 {
        lemma_closed(fs, seen, path, n - 1);
        let k = choose|k: int| 0 <= k < seen.len() && seen[k] == path[n - 1] as u32;
        assert(seen[k] as int == path[n - 1]);
        assert(rules::calls(fs, seen[k] as int, to as int));
        assert(seen.contains(to) || seen[k] != seen[k]);
    }
}

} // verus!

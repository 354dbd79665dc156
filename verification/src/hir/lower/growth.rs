//! Finding the templates of which there is always one more instance to make.

use vstd::prelude::*;
use vstd::set_lib::{lemma_int_range, lemma_len_subset, set_int_range};

use crate::hir::lower::types::Table;
use crate::hir::rules::growth as rules;
use crate::hir::rules::growth::{Flow, Parameter};
use crate::hir::types::DEPTH;
use crate::hir::{fields_view, Field, Scale, Type, Types};
use crate::text::cat3;

verus! {

/// Adds the parameters that occur in a type.
fn occurring(types: &Types, ty: Type, depth: u32, out: &mut Vec<u32>)
    ensures
        final(out)@ == old(out)@ + rules::occurring(types@, ty, depth as nat),
    decreases depth, 0int,
{
    let ghost before = out@;
    match ty {
        Type::Param(index) => {
            out.push(index);
            assert(out@ =~= before + seq![index]);
        },
        Type::Fix(Scale::Param(index)) => {
            out.push(index);
            assert(out@ =~= before + seq![index]);
        },
        Type::Vec(id) => {
            if depth > 0 {
                occurring(types, types.element_at(id), depth - 1, out);
            } else {
                assert(out@ =~= before + seq![]);
            }
        },
        Type::Option(id) => {
            if depth > 0 {
                occurring(types, types.inner_at(id), depth - 1, out);
            } else {
                assert(out@ =~= before + seq![]);
            }
        },
        Type::Struct(id) => {
            if let Some(def) = types.find_struct(id) {
                if let Some((_, args)) = &def.from {
                    if depth > 0 {
                        all_occurring(types, args, depth - 1, out);
                        return;
                    }
                }
            }
            assert(out@ =~= before + seq![]);
        },
        _ => {
            assert(out@ =~= before + seq![]);
        },
    }
}

fn all_occurring(types: &Types, args: &Vec<Type>, depth: u32, out: &mut Vec<u32>)
    ensures
        final(out)@ == old(out)@ + rules::all_occurring(types@, args@, 0, depth as nat),
    decreases depth, args.len() + 1,
{
    let ghost before = out@;
    let mut i: usize = 0;
    while i < args.len()
        invariant
            i <= args@.len(),
            before + rules::all_occurring(types@, args@, 0, depth as nat) =~= out@
                + rules::all_occurring(types@, args@, i as int, depth as nat),
        decreases args.len() - i,
    {
        occurring(types, args[i], depth, out);
        i += 1;
    }
    assert(out@ + seq![] =~= out@);
}

fn is_bare(ty: Type) -> (r: bool)
    ensures
        r == rules::is_bare(ty),
{
    match ty {
        Type::Param(_) => true,
        Type::Fix(Scale::Param(_)) => true,
        _ => false,
    }
}

/// Adds where the instances in a type of a field of template `p` hand its parameters.
fn type_flows(types: &Types, p: usize, ty: Type, depth: u32, out: &mut Vec<Flow>)
    ensures
        final(out)@ == old(out)@ + rules::type_flows(types@, p, ty, depth as nat),
    decreases depth, 0int,
{
    let ghost before = out@;
    match ty {
        Type::Vec(id) => {
            if depth > 0 {
                type_flows(types, p, types.element_at(id), depth - 1, out);
            } else {
                assert(out@ =~= before + seq![]);
            }
        },
        Type::Option(id) => {
            if depth > 0 {
                type_flows(types, p, types.inner_at(id), depth - 1, out);
            } else {
                assert(out@ =~= before + seq![]);
            }
        },
        Type::Struct(id) => {
            if let Some(def) = types.find_struct(id) {
                if let Some((q, args)) = &def.from {
                    if depth > 0 {
                        args_flows(types, p, *q, args, depth - 1, out);
                        return;
                    }
                }
            }
            assert(out@ =~= before + seq![]);
        },
        _ => {
            assert(out@ =~= before + seq![]);
        },
    }
}

fn args_flows(
    types: &Types,
    p: usize,
    q: usize,
    args: &Vec<Type>,
    depth: u32,
    out: &mut Vec<Flow>,
)
    ensures
        final(out)@ == old(out)@ + rules::args_flows(types@, p, q, args@, 0, depth as nat),
    decreases depth, args.len() + 1,
{
    let ghost before = out@;
    let mut i: usize = 0;
    while i < args.len()
        invariant
            i <= args@.len(),
            before + rules::args_flows(types@, p, q, args@, 0, depth as nat) =~= out@
                + rules::args_flows(types@, p, q, args@, i as int, depth as nat),
        decreases args.len() - i,
    {
        let mut occurs: Vec<u32> = Vec::new();
        occurring(types, args[i], depth, &mut occurs);
        assert(occurs@ =~= rules::occurring(types@, args@[i as int], depth as nat));
        flows_to(p, &occurs, Parameter { template: q, index: i as u32 }, !is_bare(args[i]), out);
        type_flows(types, p, args[i], depth, out);
        i += 1;
    }
    assert(out@ + seq![] =~= out@);
}

/// Adds each of the parameters of template `p`, handed on to `to`.
fn flows_to(p: usize, occurs: &Vec<u32>, to: Parameter, grows: bool, out: &mut Vec<Flow>)
    ensures
        final(out)@ == old(out)@ + rules::flows_to(p, occurs@, to, grows),
{
    let ghost before = out@;
    let ghost added = rules::flows_to(p, occurs@, to, grows);
    let mut i: usize = 0;
    proof {
        assert(out@ =~= before + added.take(0));
    }
    while i < occurs.len()
        invariant
            i <= occurs@.len(),
            added == rules::flows_to(p, occurs@, to, grows),
            out@ == before + added.take(i as int),
        decreases occurs.len() - i,
    {
        out.push(Flow { from: Parameter { template: p, index: occurs[i] }, to, grows });
        i += 1;
        proof {
            assert(out@ =~= before + added.take(i as int));
        }
    }
    proof {
        assert(added.take(i as int) =~= added);
    }
}

fn fields_flows(types: &Types, p: usize, fields: &Vec<Field>, out: &mut Vec<Flow>)
    ensures
        final(out)@ == old(out)@ + rules::fields_flows(types@, p, fields_view(fields@), 0),
{
    let ghost before = out@;
    let ghost all = fields_view(fields@);
    let mut i: usize = 0;
    while i < fields.len()
        invariant
            i <= fields@.len(),
            all == fields_view(fields@),
            before + rules::fields_flows(types@, p, all, 0) =~= out@ + rules::fields_flows(
                types@,
                p,
                all,
                i as int,
            ),
        decreases fields.len() - i,
    {
        proof {
            assert(all[i as int] == fields@[i as int]@);
        }
        type_flows(types, p, fields[i].ty, DEPTH, out);
        i += 1;
    }
    assert(out@ + seq![] =~= out@);
}

/// Where the templates hand their parameters.
fn flows(types: &Types) -> (r: Vec<Flow>)
    ensures
        r@ == rules::flows(types@, 0),
{
    proof {
        reveal(rules::flows);
    }
    let mut out: Vec<Flow> = Vec::new();
    let mut p: usize = 0;
    let count: usize = types.template_count();
    while p < count
        invariant
            p <= count,
            count == types@.templates.len(),
            rules::flows(types@, 0) =~= out@ + rules::flows(types@, p as int),
        decreases count - p,
    {
        proof {
            reveal(rules::flows);
        }
        if let Some(template) = types.template_at(p) {
            fields_flows(types, p, &template.fields, &mut out);
        }
        p += 1;
    }
    proof {
        reveal(rules::flows);
    }
    assert(out@ + seq![] =~= out@);
    out
}

// Following flows.

fn listed(seen: &Vec<usize>, n: usize) -> (r: bool)
    ensures
        r == seen@.contains(n),
{
    let mut i: usize = 0;
    while i < seen.len()
        invariant
            i <= seen@.len(),
            forall|k: int| 0 <= k < i ==> seen@[k] != n,
        decreases seen.len() - i,
    {
        if seen[i] == n {
            assert(seen@[i as int] == n);
            return true;
        }
        i += 1;
    }
    false
}

/// Whether the list holds flows, each once, that what goes through `a` can come to.
spec fn followed(all: Seq<Flow>, a: int, seen: Seq<usize>) -> bool {
    &&& seen.no_duplicates()
    &&& forall|k: int|
        0 <= k < seen.len() ==> (#[trigger] seen[k]) < all.len() && rules::comes_to(
            all,
            a,
            seen[k] as int,
        )
}

/// Whether whatever follows `from` is in the list.
spec fn passed_on(all: Seq<Flow>, from: int, seen: Seq<usize>) -> bool {
    forall|b: usize| rules::joins(all, from, b as int) ==> #[trigger] seen.contains(b)
}

/// Adds what follows `from`.
fn follow(all: &Vec<Flow>, a: Ghost<int>, from: usize, seen: &mut Vec<usize>)
    requires
        from < all@.len(),
        from == a@ || rules::comes_to(all@, a@, from as int),
        followed(all@, a@, old(seen)@),
    ensures
        followed(all@, a@, final(seen)@),
        passed_on(all@, from as int, final(seen)@),
        old(seen)@.len() <= final(seen)@.len(),
        forall|k: int| 0 <= k < old(seen)@.len() ==> #[trigger] final(seen)@[k] == old(seen)@[k],
{
    let mut b: usize = 0;
    while b < all.len()
        invariant
            b <= all@.len(),
            from < all@.len(),
            from == a@ || rules::comes_to(all@, a@, from as int),
            followed(all@, a@, seen@),
            forall|c: usize|
                c < b && rules::joins(all@, from as int, c as int) ==> #[trigger] seen@.contains(c),
            old(seen)@.len() <= seen@.len(),
            forall|k: int| 0 <= k < old(seen)@.len() ==> #[trigger] seen@[k] == old(seen)@[k],
        decreases all.len() - b,
    {
        if all[from].to == all[b].from && !listed(seen, b) {
            let ghost before = seen@;
            seen.push(b);
            proof {
                assert(rules::joins(all@, from as int, b as int));
                if from == a@ {
                    lemma_one_step(all@, a@, b as int);
                } else {
                    lemma_one_step_more(all@, a@, from as int, b as int);
                }
                assert(seen@[before.len() as int] == b);
                lemma_more_listed(before, seen@);
                assert forall|c: usize|
                    c < b + 1 && rules::joins(all@, from as int, c as int) implies #[trigger]
                    seen@.contains(c) by {
                    assert(c < b ==> before.contains(c));
                }
                assert forall|k: int| 0 <= k < seen@.len() implies (#[trigger] seen@[k])
                    < all@.len() && rules::comes_to(all@, a@, seen@[k] as int) by {
                    if k < before.len() {
                        assert(seen@[k] == before[k]);
                    }
                }
            }
        }
        b += 1;
    }
}

/// The flows that what goes through `a` can come to.
fn followers(all: &Vec<Flow>, a: usize) -> (r: Vec<usize>)
    requires
        a < all@.len(),
    ensures
        followed(all@, a as int, r@),
        forall|b: usize| rules::comes_to(all@, a as int, b as int) ==> #[trigger] r@.contains(b),
{
    let count: usize = all.len();
    let mut seen: Vec<usize> = Vec::new();
    follow(all, Ghost(a as int), a, &mut seen);
    let mut i: usize = 0;
    while i < seen.len()
        invariant
            i <= seen@.len(),
            count == all@.len(),
            a < count,
            followed(all@, a as int, seen@),
            passed_on(all@, a as int, seen@),
            forall|k: int| 0 <= k < i ==> passed_on(all@, #[trigger] seen@[k] as int, seen@),
        decreases count - i,
    {
        let ghost before = seen@;
        let from: usize = seen[i];
        follow(all, Ghost(a as int), from, &mut seen);
        proof {
            lemma_bounded(seen@, all@.len() as int);
            lemma_more_listed(before, seen@);
            lemma_passed_on(all@, a as int, before, seen@);
            assert forall|k: int| 0 <= k < i + 1 implies passed_on(
                all@,
                #[trigger] seen@[k] as int,
                seen@,
            ) by {
                assert(seen@[k] == before[k]);
                if k < i {
                    lemma_passed_on(all@, before[k] as int, before, seen@);
                }
            }
        }
        i += 1;
    }
    proof {
        assert forall|b: usize| rules::comes_to(all@, a as int, b as int) implies #[trigger]
            seen@.contains(b) by {
            let route = choose|route: Seq<int>|
                route.len() >= 2 && route[0] == a as int && route.last() == b as int
                    && #[trigger] rules::is_route(all@, route);
            lemma_routes_are_followed(all@, a as int, seen@, route, route.len() - 1);
        }
    }
    seen
}

/// Which templates have always one more instance to make.
fn endless(all: &Vec<Flow>, count: usize) -> (r: Vec<bool>)
    ensures
        r@.len() == count,
        forall|p: int| 0 <= p < count ==> #[trigger] r@[p] == rules::is_endless(all@, p as usize),
{
    let mut out: Vec<bool> = Vec::new();
    while out.len() < count
        invariant
            out@.len() <= count,
            forall|p: int| 0 <= p < out@.len() ==> !#[trigger] out@[p],
        decreases count - out.len(),
    {
        out.push(false);
    }
    let mut a: usize = 0;
    while a < all.len()
        invariant
            a <= all@.len(),
            out@.len() == count,
            forall|p: int|
                0 <= p < count && #[trigger] out@[p] ==> rules::is_endless(all@, p as usize),
            forall|c: int, b: int|
                0 <= c < a && on_round(all@, c, b) && (#[trigger] all@[b]).from.template < count
                    && (#[trigger] all@[c]).grows ==> out@[all@[b].from.template as int],
        decreases all.len() - a,
    {
        if all[a].grows {
            let after = followers(all, a);
            // What never comes back is on no round.
            if listed(&after, a) {
                let mut k: usize = 0;
                while k < after.len()
                    invariant
                        k <= after@.len(),
                        a < all@.len(),
                        all@[a as int].grows,
                        out@.len() == count,
                        followed(all@, a as int, after@),
                        forall|p: int|
                            0 <= p < count && #[trigger] out@[p] ==> rules::is_endless(
                                all@,
                                p as usize,
                            ),
                        forall|c: int, b: int|
                            0 <= c < a && on_round(all@, c, b) && (#[trigger] all@[b]).from.template
                                < count && (#[trigger] all@[c]).grows
                                ==> out@[all@[b].from.template as int],
                        forall|j: int|
                            0 <= j < k && on_round(all@, a as int, #[trigger] after@[j] as int)
                                && all@[after@[j] as int].from.template < count
                                ==> out@[all@[after@[j] as int].from.template as int],
                    decreases after.len() - k,
                {
                    let b: usize = after[k];
                    let p: usize = all[b].from.template;
                    if p < count {
                        let back = followers(all, b);
                        if listed(&back, a) {
                            proof {
                                let i = choose|i: int| 0 <= i < back@.len() && back@[i] == a;
                                assert(rules::comes_to(all@, b as int, back@[i] as int));
                                assert(rules::comes_to(all@, a as int, after@[k as int] as int));
                                assert(all@[a as int].grows && all@[b as int].from.template == p);
                                assert(rules::is_endless(all@, p));
                            }
                            out.set(p, true);
                        }
                    }
                    k += 1;
                }
                proof {
                    assert forall|b: int|
                        on_round(all@, a as int, b) && (#[trigger] all@[b]).from.template
                            < count implies out@[all@[b].from.template as int] by {
                        assert(rules::comes_to(all@, a as int, (b as usize) as int));
                        assert(after@.contains(b as usize));
                        let j = choose|j: int| 0 <= j < after@.len() && after@[j] == b as usize;
                        assert(on_round(all@, a as int, after@[j] as int));
                    }
                }
            }
            proof {
                assert forall|b: int|
                    on_round(all@, a as int, b) && (#[trigger] all@[b]).from.template
                        < count implies out@[all@[b].from.template as int] by {
                    lemma_round(all@, a as int, b);
                    assert(after@.contains(a));
                }
            }
        }
        proof {
            assert forall|c: int, b: int|
                0 <= c < a + 1 && on_round(all@, c, b) && (#[trigger] all@[b]).from.template < count
                    && (#[trigger] all@[c]).grows implies out@[all@[b].from.template as int] by {}
        }
        a += 1;
    }
    proof {
        assert forall|p: int| 0 <= p < count implies #[trigger] out@[p] == rules::is_endless(
            all@,
            p as usize,
        ) by {
            if rules::is_endless(all@, p as usize) {
                let (c, b) = choose|c: int, b: int|
                    0 <= c < all@.len() && 0 <= b < all@.len() && (#[trigger] all@[c]).grows && (
                    #[trigger] all@[b]).from.template == p as usize && rules::comes_to(
                        all@,
                        c,
                        b,
                    ) && rules::comes_to(all@, b, c);
                assert(on_round(all@, c, b));
            }
        }
    }
    out
}

spec fn on_round(all: Seq<Flow>, a: int, b: int) -> bool {
    0 <= b < all.len() && rules::comes_to(all, a, b) && rules::comes_to(all, b, a)
}

impl Table {
    /// Reports the templates of which there is always one more instance to make, and takes
    /// the fields that ask for it.
    pub(crate) fn check_growth(&mut self)
        ensures
            final(self)@ == rules::check_growth(
                old(self)@,
                rules::flows(old(self)@.types, 0),
                0,
            ),
    {
        let ghost start = self@;
        let all = flows(&self.types);
        let count: usize = self.types.template_count();
        let ends = endless(&all, count);
        let mut p: usize = 0;
        while p < count
            invariant
                p <= count,
                count == self@.types.templates.len(),
                ends@.len() == count,
                forall|q: int|
                    0 <= q < count ==> #[trigger] ends@[q] == rules::is_endless(all@, q as usize),
                rules::check_growth(start, all@, 0) == rules::check_growth(
                    self@,
                    all@,
                    p as int,
                ),
            decreases count - p,
        {
            proof {
                reveal(rules::check_growth);
                assert(ends@[p as int] == rules::is_endless(all@, p as usize));
            }
            if ends[p] {
                if let Some(template) = self.types.template_at(p) {
                    let span = template.span;
                    let message = cat3(
                        "'",
                        template.name.as_str(),
                        "' never ends: each instance of it needs another",
                    );
                    let none: Vec<Field> = Vec::new();
                    proof {
                        assert(fields_view(none@) =~= seq![]);
                    }
                    self.types.set_template_fields(p, none);
                    self.fault(span, message);
                }
            }
            p += 1;
        }
        proof {
            reveal(rules::check_growth);
        }
    }
}

// Routes.

/// There are only so many numbers below `n`.
proof fn lemma_bounded(seen: Seq<usize>, n: int)
    requires
        n >= 0,
        seen.no_duplicates(),
        forall|k: int| 0 <= k < seen.len() ==> (#[trigger] seen[k]) < n,
    ensures
        seen.len() <= n,
{
    let numbers = seen.map_values(|k: usize| k as int);
    assert forall|i: int, j: int|
        0 <= i < numbers.len() && 0 <= j < numbers.len() && i != j implies numbers[i]
        != numbers[j] by {
        assert(seen[i] != seen[j]);
    }
    assert(numbers.no_duplicates());
    numbers.unique_seq_to_set();
    lemma_int_range(0, n);
    assert forall|k: int| numbers.to_set().contains(k) implies set_int_range(0, n).contains(k) by {
        let i = choose|i: int| 0 <= i < numbers.len() && numbers[i] == k;
        assert(numbers[i] == seen[i] as int);
    }
    lemma_len_subset(numbers.to_set(), set_int_range(0, n));
}

proof fn lemma_more_listed(a: Seq<usize>, b: Seq<usize>)
    requires
        a.len() <= b.len(),
        forall|k: int| 0 <= k < a.len() ==> #[trigger] b[k] == a[k],
    ensures
        forall|c: usize| #[trigger] a.contains(c) ==> b.contains(c),
{
    assert forall|c: usize| #[trigger] a.contains(c) implies b.contains(c) by {
        let k = choose|k: int| 0 <= k < a.len() && a[k] == c;
        assert(b[k] == c);
    }
}

proof fn lemma_passed_on(all: Seq<Flow>, from: int, a: Seq<usize>, b: Seq<usize>)
    requires
        passed_on(all, from, a),
        forall|c: usize| #[trigger] a.contains(c) ==> b.contains(c),
    ensures
        passed_on(all, from, b),
{
    assert forall|c: usize| rules::joins(all, from, c as int) implies #[trigger] b.contains(c) by {
        assert(a.contains(c));
    }
}

proof fn lemma_one_step(all: Seq<Flow>, a: int, b: int)
    requires
        rules::joins(all, a, b),
    ensures
        rules::comes_to(all, a, b),
{
    let route = seq![a, b];
    assert(rules::is_route(all, route));
}

proof fn lemma_one_step_more(all: Seq<Flow>, a: int, mid: int, b: int)
    requires
        rules::comes_to(all, a, mid),
        rules::joins(all, mid, b),
    ensures
        rules::comes_to(all, a, b),
{
    let route = choose|route: Seq<int>|
        route.len() >= 2 && route[0] == a && route.last() == mid && #[trigger] rules::is_route(
            all,
            route,
        );
    let longer = route.push(b);
    assert forall|i: int| 0 <= i < longer.len() - 1 implies rules::joins(
        all,
        longer[i],
        #[trigger] longer[i + 1],
    ) by {
        if i < route.len() - 1 {
            assert(route[i + 1] == longer[i + 1]);
        }
    }
    assert(rules::is_route(all, longer));
    assert(longer.last() == b);
}

/// What comes to a flow and back has come to itself.
proof fn lemma_round(all: Seq<Flow>, a: int, b: int)
    requires
        rules::comes_to(all, a, b),
        rules::comes_to(all, b, a),
    ensures
        rules::comes_to(all, a, a),
{
    let back = choose|route: Seq<int>|
        route.len() >= 2 && route[0] == b && route.last() == a && #[trigger] rules::is_route(
            all,
            route,
        );
    lemma_along(all, a, b, back, back.len() - 1);
}

proof fn lemma_along(all: Seq<Flow>, a: int, b: int, route: Seq<int>, n: int)
    requires
        rules::comes_to(all, a, b),
        route.len() >= 2,
        route[0] == b,
        rules::is_route(all, route),
        0 <= n < route.len(),
    ensures
        rules::comes_to(all, a, route[n]),
    decreases n,
{
    if n > 0 {
        lemma_along(all, a, b, route, n - 1);
        assert(rules::joins(all, route[n - 1], route[n - 1 + 1]));
        lemma_one_step_more(all, a, route[n - 1], route[n]);
    }
}

/// A list that has whatever follows what it holds holds every route.
proof fn lemma_routes_are_followed(
    all: Seq<Flow>,
    a: int,
    seen: Seq<usize>,
    route: Seq<int>,
    n: int,
)
    requires
        all.len() <= usize::MAX,
        rules::is_route(all, route),
        1 <= n < route.len(),
        route[0] == a,
        passed_on(all, a, seen),
        forall|k: int| 0 <= k < seen.len() ==> passed_on(all, #[trigger] seen[k] as int, seen),
    ensures
        0 <= route[n] < all.len(),
        seen.contains(route[n] as usize),
    decreases n,
{
    assert(rules::joins(all, route[n - 1], route[n - 1 + 1]));
    let to = route[n] as usize;
    assert(to as int == route[n]);
    if n > 1 {
        lemma_routes_are_followed(all, a, seen, route, n - 1);
        let k = choose|k: int| 0 <= k < seen.len() && seen[k] == route[n - 1] as usize;
        assert(passed_on(all, seen[k] as int, seen));
        assert(seen[k] as int == route[n - 1]);
    }
    assert(seen.contains(to));
}

} // verus!

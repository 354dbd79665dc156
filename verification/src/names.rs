//! The names a generated datapack uses.
//!
//! They are load-bearing, and more than one stage writes them: `mir` and `emit` put
//! them into commands, while `text!` puts them into JSON that names a score or a
//! storage path directly. A mismatch between the two would fail silently in game,
//! which is exactly the class of bug this compiler exists to prevent, so each name
//! is decided in one place, here.

use vstd::prelude::*;

use crate::text::{cat2, cat4};

verus! {

pub open spec fn fake_player_name(owner: Seq<char>, binding: Seq<char>) -> Seq<char> {
    "$"@ + owner + "."@ + binding
}

pub open spec fn var_path_name(owner: Seq<char>, binding: Seq<char>) -> Seq<char> {
    "mw.vars."@ + owner + "."@ + binding
}

pub open spec fn var_objective_name(namespace: Seq<char>) -> Seq<char> {
    namespace + ".v"@
}

pub open spec fn temp_objective_name(namespace: Seq<char>) -> Seq<char> {
    namespace + ".t"@
}

pub open spec fn storage_name(namespace: Seq<char>) -> Seq<char> {
    namespace + ":mw"@
}

/// The fake player a binding's score is kept under: `$<function>.<binding>`.
///
/// Qualified by function so two functions' locals cannot collide, and prefixed with
/// `$` so it can never be a real player's name.
pub fn fake_player(owner: &str, binding: &str) -> (r: String)
    ensures
        r@ == fake_player_name(owner@, binding@),
{
    cat4("$", owner, ".", binding)
}

/// Where a binding that lives in storage is kept: `mw.vars.<function>.<binding>`.
pub fn var_path(owner: &str, binding: &str) -> (r: String)
    ensures
        r@ == var_path_name(owner@, binding@),
{
    cat4("mw.vars.", owner, ".", binding)
}

/// The objective holding the bindings the author wrote.
pub fn var_objective(namespace: &str) -> (r: String)
    ensures
        r@ == var_objective_name(namespace@),
{
    cat2(namespace, ".v")
}

/// The objective holding compiler temporaries.
pub fn temp_objective(namespace: &str) -> (r: String)
    ensures
        r@ == temp_objective_name(namespace@),
{
    cat2(namespace, ".t")
}

/// The one storage a pack uses, split by root path.
pub fn storage(namespace: &str) -> (r: String)
    ensures
        r@ == storage_name(namespace@),
{
    cat2(namespace, ":mw")
}

/// A name qualified by its owner names one binding: a binding's own name has no `.` in it,
/// so the last one parts the two.
proof fn lemma_qualified_names_differ(
    a: Seq<char>,
    one: Seq<char>,
    b: Seq<char>,
    other: Seq<char>,
)
    requires
        !one.contains('.'),
        !other.contains('.'),
        a + "."@ + one == b + "."@ + other,
    ensures
        a == b,
        one == other,
{
    reveal_strlit(".");
    let all = a + "."@ + one;
    let same = b + "."@ + other;
    assert(all.len() == a.len() + 1 + one.len());
    assert(same.len() == b.len() + 1 + other.len());
    assert(all[a.len() as int] == '.');
    assert(same[b.len() as int] == '.');
    if a.len() < b.len() {
        let k = b.len() - a.len() - 1;
        assert(all[b.len() as int] == one[k]);
        assert(one.contains(one[k]));
    }
    if b.len() < a.len() {
        let k = a.len() - b.len() - 1;
        assert(same[a.len() as int] == other[k]);
        assert(other.contains(other[k]));
    }
    assert(a =~= all.take(a.len() as int));
    assert(b =~= same.take(a.len() as int));
    assert(one =~= all.skip((a.len() + 1) as int));
    assert(other =~= same.skip((a.len() + 1) as int));
}

/// Two bindings never share a score: neither two of one function nor two of different
/// functions.
pub proof fn lemma_scores_do_not_collide(
    a: Seq<char>,
    one: Seq<char>,
    b: Seq<char>,
    other: Seq<char>,
)
    requires
        !one.contains('.'),
        !other.contains('.'),
    ensures
        fake_player_name(a, one) == fake_player_name(b, other) <==> a == b && one == other,
{
    if fake_player_name(a, one) == fake_player_name(b, other) {
        reveal_strlit("$");
        assert(a + "."@ + one =~= fake_player_name(a, one).skip(1));
        assert(b + "."@ + other =~= fake_player_name(b, other).skip(1));
        lemma_qualified_names_differ(a, one, b, other);
    }
}

/// Two bindings never share a place in storage.
pub proof fn lemma_paths_do_not_collide(
    a: Seq<char>,
    one: Seq<char>,
    b: Seq<char>,
    other: Seq<char>,
)
    requires
        !one.contains('.'),
        !other.contains('.'),
    ensures
        var_path_name(a, one) == var_path_name(b, other) <==> a == b && one == other,
{
    if var_path_name(a, one) == var_path_name(b, other) {
        reveal_strlit("mw.vars.");
        assert(a + "."@ + one =~= var_path_name(a, one).skip(8));
        assert(b + "."@ + other =~= var_path_name(b, other).skip(8));
        lemma_qualified_names_differ(a, one, b, other);
    }
}

/// A score's holder is never a player: it starts with a `$`.
pub proof fn lemma_holders_are_not_players(owner: Seq<char>, binding: Seq<char>)
    ensures
        fake_player_name(owner, binding).len() > 0,
        fake_player_name(owner, binding)[0] == '$',
{
    reveal_strlit("$");
}

/// What the author wrote and what the compiler made up are kept apart, whatever the
/// namespaces.
pub proof fn lemma_objectives_differ(a: Seq<char>, b: Seq<char>)
    ensures
        var_objective_name(a) != temp_objective_name(b),
        var_objective_name(a) == var_objective_name(b) ==> a == b,
        temp_objective_name(a) == temp_objective_name(b) ==> a == b,
{
    reveal_strlit(".v");
    reveal_strlit(".t");
    assert(var_objective_name(a).last() == 'v');
    assert(temp_objective_name(b).last() == 't');
    assert(a =~= var_objective_name(a).take(var_objective_name(a).len() - 2));
    assert(b =~= var_objective_name(b).take(var_objective_name(b).len() - 2));
    assert(a =~= temp_objective_name(a).take(temp_objective_name(a).len() - 2));
    assert(b =~= temp_objective_name(b).take(temp_objective_name(b).len() - 2));
}

} // verus!

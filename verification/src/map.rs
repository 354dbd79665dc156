//! Maps from text to text, in the order of their keys.

use vstd::prelude::*;

use crate::text::{before, own, precedes, same};

verus! {

/// Where a key belongs, from position `i` on.
pub open spec fn slot(entries: Seq<(Seq<char>, Seq<char>)>, key: Seq<char>, i: int) -> int
    decreases entries.len() - i,
{
    if 0 <= i < entries.len() && before(entries[i].0, key) {
        slot(entries, key, i + 1)
    } else {
        i
    }
}

/// The entries with one of them set: the value of a key that is there is replaced, and a
/// new key goes where it belongs.
pub open spec fn put(
    entries: Seq<(Seq<char>, Seq<char>)>,
    key: Seq<char>,
    value: Seq<char>,
) -> Seq<(Seq<char>, Seq<char>)> {
    let at = slot(entries, key, 0);
    if at < entries.len() && entries[at].0 == key {
        entries.update(at, (key, value))
    } else {
        entries.insert(at, (key, value))
    }
}

/// The entries without that of a key.
pub open spec fn without(entries: Seq<(Seq<char>, Seq<char>)>, key: Seq<char>) -> Seq<
    (Seq<char>, Seq<char>),
> {
    let at = key_at(entries, key, 0);
    if at < entries.len() {
        entries.remove(at)
    } else {
        entries
    }
}

/// The position of a key from `i` on, or the number of entries.
pub open spec fn key_at(entries: Seq<(Seq<char>, Seq<char>)>, key: Seq<char>, i: int) -> int
    decreases entries.len() - i,
{
    if i < 0 || i >= entries.len() {
        entries.len() as int
    } else if entries[i].0 == key {
        i
    } else {
        key_at(entries, key, i + 1)
    }
}

/// The value of a key.
pub open spec fn value_of(entries: Seq<(Seq<char>, Seq<char>)>, key: Seq<char>) -> Option<Seq<char>> {
    let at = key_at(entries, key, 0);
    if at < entries.len() {
        Some(entries[at].1)
    } else {
        None
    }
}

/// Whether the keys are in order, each once.
pub open spec fn sorted(entries: Seq<(Seq<char>, Seq<char>)>) -> bool {
    forall|i: int, j: int| 0 <= i < j < entries.len() ==> before(entries[i].0, entries[j].0)
}

/// A text does not come before itself.
pub proof fn lemma_before_irreflexive(a: Seq<char>)
    ensures
        !before(a, a),
    decreases a.len(),
{
    if a.len() > 0 {
        lemma_before_irreflexive(a.skip(1));
    }
}

pub proof fn lemma_before_transitive(a: Seq<char>, b: Seq<char>, c: Seq<char>)
    requires
        before(a, b),
        before(b, c),
    ensures
        before(a, c),
    decreases a.len(),
{
    if a.len() > 0 && b.len() > 0 && c.len() > 0 && a[0] == b[0] && b[0] == c[0] {
        lemma_before_transitive(a.skip(1), b.skip(1), c.skip(1));
    }
}

/// Of two different texts, one comes before the other.
pub proof fn lemma_before_total(a: Seq<char>, b: Seq<char>)
    requires
        a != b,
    ensures
        before(a, b) || before(b, a),
    decreases a.len(),
{
    if a.len() > 0 && b.len() > 0 && a[0] == b[0] {
        if a.skip(1) == b.skip(1) {
            assert(a =~= seq![a[0]] + a.skip(1));
            assert(b =~= seq![b[0]] + b.skip(1));
        }
        lemma_before_total(a.skip(1), b.skip(1));
    } else if a.len() == 0 && b.len() == 0 {
        assert(a =~= b);
    }
}

/// Everything in front of a key's place comes before it, and what is there does not.
proof fn lemma_slot(entries: Seq<(Seq<char>, Seq<char>)>, key: Seq<char>, i: int)
    requires
        0 <= i <= entries.len(),
    ensures
        i <= slot(entries, key, i) <= entries.len(),
        forall|k: int| i <= k < slot(entries, key, i) ==> before((#[trigger] entries[k]).0, key),
        slot(entries, key, i) < entries.len() ==> !before(entries[slot(entries, key, i)].0, key),
    decreases entries.len() - i,
{
    if i < entries.len() && before(entries[i].0, key) {
        lemma_slot(entries, key, i + 1);
    }
}

pub(crate) proof fn lemma_key_at(entries: Seq<(Seq<char>, Seq<char>)>, key: Seq<char>, i: int)
    requires
        0 <= i <= entries.len(),
    ensures
        i <= key_at(entries, key, i) <= entries.len(),
        forall|k: int| i <= k < key_at(entries, key, i) ==> (#[trigger] entries[k]).0 != key,
        key_at(entries, key, i) < entries.len() ==> entries[key_at(entries, key, i)].0 == key,
    decreases entries.len() - i,
{
    if i < entries.len() && entries[i].0 != key {
        lemma_key_at(entries, key, i + 1);
    }
}

/// Setting a value keeps the keys in order, each once.
pub proof fn lemma_put_keeps_order(
    entries: Seq<(Seq<char>, Seq<char>)>,
    key: Seq<char>,
    value: Seq<char>,
)
    requires
        sorted(entries),
    ensures
        sorted(put(entries, key, value)),
{
    let at = slot(entries, key, 0);
    lemma_slot(entries, key, 0);
    let made = put(entries, key, value);
    if !(at < entries.len() && entries[at].0 == key) {
        assert forall|i: int, j: int| 0 <= i < j < made.len() implies before(
            made[i].0,
            made[j].0,
        ) by {
            if i < at && j == at {
                assert(before(entries[i].0, key));
            } else if i == at && j > at {
                lemma_before_total(entries[at].0, key);
                if j - 1 > at {
                    lemma_before_transitive(key, entries[at].0, entries[j - 1].0);
                }
            } else {
                let p = if i < at {
                    i
                } else {
                    i - 1
                };
                let q = if j < at {
                    j
                } else {
                    j - 1
                };
                assert(before(entries[p].0, entries[q].0));
            }
        }
    }
}

/// What was set is what is found, and every other key is as it was.
pub proof fn lemma_put_is_found(
    entries: Seq<(Seq<char>, Seq<char>)>,
    key: Seq<char>,
    value: Seq<char>,
    other: Seq<char>,
)
    requires
        sorted(entries),
    ensures
        value_of(put(entries, key, value), other) == if other == key {
            Some(value)
        } else {
            value_of(entries, other)
        },
{
    let at = slot(entries, key, 0);
    let made = put(entries, key, value);
    lemma_slot(entries, key, 0);
    lemma_put_keeps_order(entries, key, value);
    lemma_key_at(made, other, 0);
    lemma_key_at(entries, other, 0);
    let there = key_at(made, other, 0);
    let was = key_at(entries, other, 0);
    assert(made[at] == (key, value));
    if other == key {
        if there < at {
            assert(before(made[there].0, made[at].0));
            lemma_before_irreflexive(key);
        }
    } else if at < entries.len() && entries[at].0 == key {
        assert(forall|k: int|
            0 <= k < made.len() ==> (#[trigger] made[k]).0 == entries[k].0);
        assert(made.len() == entries.len());
        if was < entries.len() {
            assert(made[was].0 == other);
        }
        if there < made.len() {
            assert(entries[there].0 == other);
        }
    } else {
        if was < entries.len() {
            let k = if was < at {
                was
            } else {
                was + 1
            };
            assert(made[k] == entries[was]);
            if there < k {
                assert(before(made[there].0, made[k].0));
                lemma_before_irreflexive(other);
            }
        }
        if there < made.len() {
            let k = if there < at {
                there
            } else {
                there - 1
            };
            assert(made[there] == entries[k]);
        }
    }
}

/// Taking a key away keeps the keys in order, each once. The key is gone, and every other
/// is as it was.
pub proof fn lemma_removed_is_gone(
    entries: Seq<(Seq<char>, Seq<char>)>,
    key: Seq<char>,
    other: Seq<char>,
)
    requires
        sorted(entries),
    ensures
        sorted(without(entries, key)),
        value_of(without(entries, key), other) == if other == key {
            None
        } else {
            value_of(entries, other)
        },
{
    let made = without(entries, key);
    let at = key_at(entries, key, 0);
    lemma_key_at(entries, key, 0);
    lemma_key_at(entries, other, 0);
    lemma_key_at(made, other, 0);
    if at < entries.len() {
        let from = |i: int|
            if i < at {
                i
            } else {
                i + 1
            };
        assert forall|i: int| 0 <= i < made.len() implies #[trigger] made[i]
            == entries[from(i)] by {}
        assert forall|i: int, j: int| 0 <= i < j < made.len() implies before(
            made[i].0,
            made[j].0,
        ) by {
            assert(before(entries[from(i)].0, entries[from(j)].0));
        }
        let there = key_at(made, other, 0);
        let was = key_at(entries, other, 0);
        if there < made.len() {
            assert(made[there] == entries[from(there)]);
            lemma_keys_differ(entries, from(there), at);
            if was < entries.len() && was != from(there) {
                lemma_keys_differ(entries, was, from(there));
            }
        }
        if was < entries.len() && other != key {
            let k = if was < at {
                was
            } else {
                was - 1
            };
            assert(made[k] == entries[was]);
        }
    }
}

proof fn lemma_keys_differ(entries: Seq<(Seq<char>, Seq<char>)>, i: int, j: int)
    requires
        sorted(entries),
        0 <= i < entries.len(),
        0 <= j < entries.len(),
        i != j,
    ensures
        entries[i].0 != entries[j].0,
{
    lemma_before_irreflexive(entries[i].0);
    if i < j {
        assert(before(entries[i].0, entries[j].0));
    } else {
        assert(before(entries[j].0, entries[i].0));
    }
}

proof fn lemma_first_value(entries: Seq<(Seq<char>, Seq<char>)>, key: Seq<char>)
    requires
        sorted(entries),
        entries.len() > 0,
    ensures
        value_of(entries, entries[0].0) == Some(entries[0].1),
        value_of(entries.skip(1), entries[0].0) is None,
        key != entries[0].0 ==> value_of(entries.skip(1), key) == value_of(entries, key),
        sorted(entries.skip(1)),
{
    let rest = entries.skip(1);
    let first = entries[0].0;
    assert forall|i: int, j: int| 0 <= i < j < rest.len() implies before(rest[i].0, rest[j].0) by {
        assert(rest[i] == entries[i + 1]);
        assert(rest[j] == entries[j + 1]);
    }
    lemma_key_at(rest, first, 0);
    let k = key_at(rest, first, 0);
    if k < rest.len() {
        assert(before(entries[0].0, entries[k + 1].0));
        lemma_before_irreflexive(first);
    }
    lemma_key_at(rest, key, 0);
    lemma_key_at(entries, key, 0);
    let there = key_at(rest, key, 0);
    let was = key_at(entries, key, 0);
    if key != first {
        if was < entries.len() {
            assert(was > 0);
            assert(rest[was - 1] == entries[was]);
        }
        if there < rest.len() {
            assert(rest[there] == entries[there + 1]);
        }
        if was < entries.len() && there < was - 1 {
            assert(entries[there + 1].0 == key);
        }
    }
}

/// Two maps that hold the same values are the same, entry for entry.
pub proof fn lemma_same_values_same_entries(
    a: Seq<(Seq<char>, Seq<char>)>,
    b: Seq<(Seq<char>, Seq<char>)>,
)
    requires
        sorted(a),
        sorted(b),
        forall|key: Seq<char>| #[trigger] value_of(a, key) == value_of(b, key),
    ensures
        a == b,
    decreases a.len(),
{
    if a.len() == 0 {
        if b.len() > 0 {
            lemma_first_value(b, b[0].0);
            assert(value_of(a, b[0].0) is None);
        }
        assert(a =~= b);
    } else if b.len() == 0 {
        lemma_first_value(a, a[0].0);
        assert(value_of(b, a[0].0) is None);
    } else {
        let x = a[0].0;
        let y = b[0].0;
        lemma_first_value(a, x);
        lemma_first_value(b, y);
        assert(value_of(b, x) is Some);
        assert(value_of(a, y) is Some);
        lemma_key_at(b, x, 0);
        lemma_key_at(a, y, 0);
        if x != y {
            assert(before(y, x));
            assert(before(x, y));
            lemma_before_transitive(x, y, x);
            lemma_before_irreflexive(x);
        }
        assert forall|key: Seq<char>| #[trigger] value_of(a.skip(1), key) == value_of(
            b.skip(1),
            key,
        ) by {
            assert(value_of(a, key) == value_of(b, key));
            lemma_first_value(a, key);
            lemma_first_value(b, key);
        }
        lemma_same_values_same_entries(a.skip(1), b.skip(1));
        assert(a =~= seq![a[0]] + a.skip(1));
        assert(b =~= seq![b[0]] + b.skip(1));
    }
}

/// Of two values set for one key, the one set last counts, and nothing is left of the
/// other.
pub proof fn lemma_last_value_counts(
    entries: Seq<(Seq<char>, Seq<char>)>,
    key: Seq<char>,
    first: Seq<char>,
    last: Seq<char>,
)
    requires
        sorted(entries),
    ensures
        put(put(entries, key, first), key, last) == put(entries, key, last),
{
    let twice = put(put(entries, key, first), key, last);
    let once = put(entries, key, last);
    lemma_put_keeps_order(entries, key, first);
    lemma_put_keeps_order(put(entries, key, first), key, last);
    lemma_put_keeps_order(entries, key, last);
    assert forall|k: Seq<char>| #[trigger] value_of(twice, k) == value_of(once, k) by {
        lemma_put_is_found(entries, key, first, k);
        lemma_put_is_found(put(entries, key, first), key, last, k);
        lemma_put_is_found(entries, key, last, k);
    }
    lemma_same_values_same_entries(twice, once);
}

/// The order in which different keys are set makes no difference.
pub proof fn lemma_order_of_setting_is_forgotten(
    entries: Seq<(Seq<char>, Seq<char>)>,
    key: Seq<char>,
    value: Seq<char>,
    other: Seq<char>,
    its: Seq<char>,
)
    requires
        sorted(entries),
        key != other,
    ensures
        put(put(entries, key, value), other, its) == put(put(entries, other, its), key, value),
{
    let one = put(put(entries, key, value), other, its);
    let two = put(put(entries, other, its), key, value);
    lemma_put_keeps_order(entries, key, value);
    lemma_put_keeps_order(put(entries, key, value), other, its);
    lemma_put_keeps_order(entries, other, its);
    lemma_put_keeps_order(put(entries, other, its), key, value);
    assert forall|k: Seq<char>| #[trigger] value_of(one, k) == value_of(two, k) by {
        lemma_put_is_found(entries, key, value, k);
        lemma_put_is_found(put(entries, key, value), other, its, k);
        lemma_put_is_found(entries, other, its, k);
        lemma_put_is_found(put(entries, other, its), key, value, k);
    }
    lemma_same_values_same_entries(one, two);
}

pub open spec fn pairs_view(v: Seq<(String, String)>) -> Seq<(Seq<char>, Seq<char>)> {
    Seq::new(v.len(), |i: int| (v[i].0@, v[i].1@))
}

/// A map from text to text.
#[derive(Debug, PartialEq, Eq)]
pub struct TextMap {
    entries: Vec<(String, String)>,
}

impl TextMap {
    pub closed spec fn view(&self) -> Seq<(Seq<char>, Seq<char>)> {
        pairs_view(self.entries@)
    }

    /// The keys are in order, each once.
    #[verifier::type_invariant]
    spec fn in_order(self) -> bool {
        sorted(pairs_view(self.entries@))
    }

    pub fn new() -> (r: TextMap)
        ensures
            r@ == Seq::<(Seq<char>, Seq<char>)>::empty(),
    {
        let entries: Vec<(String, String)> = Vec::new();
        let r = TextMap { entries };
        proof {
            assert(r@ =~= seq![]);
        }
        r
    }

    pub fn len(&self) -> (r: usize)
        ensures
            r == self@.len(),
            sorted(self@),
    {
        proof {
            use_type_invariant(self);
        }
        self.entries.len()
    }

    pub fn is_empty(&self) -> (r: bool)
        ensures
            r == (self@.len() == 0),
    {
        self.entries.len() == 0
    }

    /// Sets the value of a key.
    pub fn insert(&mut self, key: &str, value: String)
        ensures
            final(self)@ == put(old(self)@, key@, value@),
            sorted(final(self)@),
    {
        let ghost was = self@;
        proof {
            use_type_invariant(&*self);
            lemma_put_keeps_order(was, key@, value@);
        }
        let mut entries: Vec<(String, String)> = Vec::new();
        std::mem::swap(&mut self.entries, &mut entries);
        let mut at: usize = 0;
        while at < entries.len() && precedes(entries[at].0.as_str(), key)
            invariant
                at <= entries@.len(),
                was == pairs_view(entries@),
                slot(was, key@, 0) == slot(was, key@, at as int),
            decreases entries.len() - at,
        {
            at += 1;
        }
        let ghost shown = value@;
        if at < entries.len() && same(entries[at].0.as_str(), key) {
            entries.set(at, (own(key), value));
            proof {
                assert(pairs_view(entries@) =~= was.update(at as int, (key@, shown)));
            }
        } else {
            entries.insert(at, (own(key), value));
            proof {
                assert(pairs_view(entries@) =~= was.insert(at as int, (key@, shown)));
            }
        }
        self.entries = entries;
    }

    /// Takes a key away, where it is there.
    pub fn remove(&mut self, key: &str)
        ensures
            final(self)@ == without(old(self)@, key@),
            sorted(final(self)@),
    {
        let ghost was = self@;
        let at: usize = self.find(key);
        proof {
            use_type_invariant(&*self);
            lemma_removed_is_gone(was, key@, key@);
        }
        if at < self.entries.len() {
            let mut entries: Vec<(String, String)> = Vec::new();
            std::mem::swap(&mut self.entries, &mut entries);
            entries.remove(at);
            proof {
                assert(pairs_view(entries@) =~= was.remove(at as int));
            }
            self.entries = entries;
        }
    }

    fn find(&self, key: &str) -> (r: usize)
        ensures
            r == key_at(self@, key@, 0),
            r <= self.entries@.len(),
    {
        let mut i: usize = 0;
        while i < self.entries.len() && !same(self.entries[i].0.as_str(), key)
            invariant
                i <= self.entries@.len(),
                key_at(self@, key@, 0) == key_at(self@, key@, i as int),
            decreases self.entries.len() - i,
        {
            i += 1;
        }
        i
    }

    /// The value of a key.
    pub fn get(&self, key: &str) -> (r: Option<&str>)
        ensures
            match r {
                Some(value) => value_of(self@, key@) == Some(value@),
                None => value_of(self@, key@) is None,
            },
    {
        let i: usize = self.find(key);
        if i < self.entries.len() {
            Some(self.entries[i].1.as_str())
        } else {
            None
        }
    }

    pub fn contains_key(&self, key: &str) -> (r: bool)
        ensures
            r == (value_of(self@, key@) is Some),
            sorted(self@),
    {
        proof {
            use_type_invariant(self);
        }
        self.find(key) < self.entries.len()
    }

    /// The `i`th key and its value.
    pub fn entry(&self, i: usize) -> (r: (&str, &str))
        requires
            i < self@.len(),
        ensures
            (r.0@, r.1@) == self@[i as int],
            sorted(self@),
    {
        proof {
            use_type_invariant(self);
        }
        (self.entries[i].0.as_str(), self.entries[i].1.as_str())
    }

    /// The keys, in order.
    pub fn keys(&self) -> (r: Vec<&str>)
        ensures
            r@.len() == self@.len(),
            forall|i: int| 0 <= i < r@.len() ==> (#[trigger] r@[i])@ == self@[i].0,
            sorted(self@),
    {
        proof {
            use_type_invariant(self);
        }
        let mut out: Vec<&str> = Vec::new();
        let mut i: usize = 0;
        while i < self.entries.len()
            invariant
                i <= self.entries@.len(),
                out@.len() == i,
                forall|k: int| 0 <= k < i ==> (#[trigger] out@[k])@ == self@[k].0,
            decreases self.entries.len() - i,
        {
            out.push(self.entries[i].0.as_str());
            i += 1;
        }
        out
    }

    pub(crate) fn copy(&self) -> (r: TextMap)
        ensures
            r@ == self@,
    {
        let mut entries: Vec<(String, String)> = Vec::new();
        let mut i: usize = 0;
        while i < self.entries.len()
            invariant
                i <= self.entries@.len(),
                entries@.len() == i,
                forall|k: int|
                    0 <= k < i ==> (#[trigger] entries@[k]).0@ == self.entries@[k].0@
                        && entries@[k].1@ == self.entries@[k].1@,
            decreases self.entries.len() - i,
        {
            entries.push((self.entries[i].0.clone(), self.entries[i].1.clone()));
            i += 1;
        }
        proof {
            use_type_invariant(self);
            assert(pairs_view(entries@) =~= self@);
        }
        TextMap { entries }
    }
}

} // verus!

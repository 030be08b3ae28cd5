//! Lists of entries that are kept in the order of their names, so that a
//! name occurs at most once and the entries come out as a sorted map would
//! give them.

use crate::encoding::chars_of;
use vstd::prelude::*;

verus! {

/// Whether `a` comes before `b` from index `i` on, given that they agree
/// below `i`: at the first index where they differ `a` has the smaller
/// character, or `a` ends first.
pub open spec fn before_from(a: Seq<char>, b: Seq<char>, i: int) -> bool
    decreases a.len() - i,
{
    if i < 0 || i >= b.len() {
        false
    } else if i >= a.len() {
        true
    } else if a[i] != b[i] {
        a[i] < b[i]
    } else {
        before_from(a, b, i + 1)
    }
}

/// Whether the name `a` comes before the name `b`: the order of strings,
/// character by character.
pub open spec fn before(a: Seq<char>, b: Seq<char>) -> bool {
    before_from(a, b, 0)
}

/// No name comes before itself.
pub proof fn lemma_before_irreflexive(a: Seq<char>, i: int)
    requires
        0 <= i,
    ensures
        !before_from(a, a, i),
    decreases a.len() - i,
{
    if i < a.len() {
        lemma_before_irreflexive(a, i + 1);
    }
}

/// The order of names is transitive.
pub proof fn lemma_before_transitive(a: Seq<char>, b: Seq<char>, c: Seq<char>, i: int)
    requires
        0 <= i,
        before_from(a, b, i),
        before_from(b, c, i),
    ensures
        before_from(a, c, i),
    decreases a.len() - i,
{
    if i < a.len() && a[i] == b[i] && b[i] == c[i] {
        lemma_before_transitive(a, b, c, i + 1);
    }
}

/// Of two names that differ, one comes before the other.
pub proof fn lemma_before_total(a: Seq<char>, b: Seq<char>, i: int)
    requires
        0 <= i <= a.len(),
        i <= b.len(),
        a.take(i) == b.take(i),
    ensures
        a == b || before_from(a, b, i) || before_from(b, a, i),
    decreases a.len() - i,
{
    if i >= a.len() || i >= b.len() {
        if i >= a.len() && i >= b.len() {
            assert(a.take(i) == a);
            assert(b.take(i) == b);
        }
    } else if a[i] == b[i] {
        assert(a.take(i + 1) == a.take(i).push(a[i]));
        assert(b.take(i + 1) == b.take(i).push(b[i]));
        lemma_before_total(a, b, i + 1);
    }
}

/// Whether `a` comes before `b` in the order of names.
pub fn name_before(a: &str, b: &str) -> (r: bool)
    ensures
        r == before(a@, b@),
{
    let x = chars_of(a);
    let y = chars_of(b);
    let mut i: usize = 0;
    while i < x.len() && i < y.len()
        invariant
            x@ == a@,
            y@ == b@,
            i <= x.len(),
            i <= y.len(),
            before(x@, y@) == before_from(x@, y@, i as int),
        decreases x.len() - i,
    {
        if x[i] != y[i] {
            return x[i] < y[i];
        }
        i = i + 1;
    }
    i < y.len()
}

/// The names of a list of named entries, in order.
pub open spec fn names_of<V>(entries: Seq<(String, V)>) -> Seq<Seq<char>> {
    entries.map_values(|e: (String, V)| e.0@)
}

/// Whether the names ascend strictly.
pub open spec fn names_ascend(names: Seq<Seq<char>>) -> bool {
    forall|i: int, j: int|
        0 <= i < j < names.len() ==> before(#[trigger] names[i], #[trigger] names[j])
}

/// Index of the first of `names` at or after `i` that is `name`; the
/// number of names where there is none.
pub open spec fn index_from(names: Seq<Seq<char>>, name: Seq<char>, i: int) -> int
    decreases names.len() - i,
{
    if i < 0 || i >= names.len() {
        names.len() as int
    } else if names[i] == name {
        i
    } else {
        index_from(names, name, i + 1)
    }
}

/// Index of `name` among `names`, if it is there.
pub open spec fn index_of(names: Seq<Seq<char>>, name: Seq<char>) -> Option<int> {
    if index_from(names, name, 0) < names.len() {
        Some(index_from(names, name, 0))
    } else {
        None
    }
}

/// What `index_from` finds is the name, and it does not stand before.
pub proof fn lemma_index_from(names: Seq<Seq<char>>, name: Seq<char>, i: int)
    requires
        0 <= i <= names.len(),
    ensures
        i <= index_from(names, name, i) <= names.len(),
        index_from(names, name, i) < names.len() ==> names[index_from(names, name, i)] == name,
        forall|j: int| i <= j < index_from(names, name, i) ==> names[j] != name,
    decreases names.len() - i,
{
    if i < names.len() && names[i] != name {
        lemma_index_from(names, name, i + 1);
    }
}

/// Among names that ascend, a name stands at one index only.
pub proof fn lemma_name_is_unique(names: Seq<Seq<char>>, i: int, j: int)
    requires
        names_ascend(names),
        0 <= i < names.len(),
        0 <= j < names.len(),
        names[i] == names[j],
    ensures
        i == j,
{
    lemma_before_irreflexive(names[i], 0);
    if i < j {
        assert(before(names[i], names[j]));
    } else if j < i {
        assert(before(names[j], names[i]));
    }
}

/// Finds the entry named `name`: the first one with that name, which is
/// the only one where the names ascend.
pub fn find<V>(entries: &Vec<(String, V)>, name: &String) -> (found: Option<usize>)
    ensures
        found is Some <==> index_of(names_of(entries@), name@) is Some,
        found is Some ==> found->0 == index_of(names_of(entries@), name@)->0 && found->0
            < entries.len() && entries@[found->0 as int].0@ == name@,
        found is None ==> forall|j: int| 0 <= j < entries@.len() ==> entries@[j].0@ != name@,
{
    let ghost names = names_of(entries@);
    let mut i: usize = 0;
    proof {
        lemma_index_from(names, name@, 0);
    }
    while i < entries.len()
        invariant
            i <= entries.len(),
            names == names_of(entries@),
            index_from(names, name@, 0) == index_from(names, name@, i as int),
        decreases entries.len() - i,
    {
        assert(names[i as int] == entries@[i as int].0@);
        if entries[i].0 == *name {
            return Some(i);
        }
        i = i + 1;
    }
    proof {
        lemma_index_from(names, name@, 0);
        assert forall|j: int| 0 <= j < entries@.len() implies entries@[j].0@ != name@ by {
            assert(names[j] == entries@[j].0@);
        }
    }
    None
}

/// Index of the first of `names` at or after `i` that does not come
/// before `name`; the number of names where all do.
pub open spec fn rank_from(names: Seq<Seq<char>>, name: Seq<char>, i: int) -> int
    decreases names.len() - i,
{
    if i < 0 || i >= names.len() {
        names.len() as int
    } else if before(names[i], name) {
        rank_from(names, name, i + 1)
    } else {
        i
    }
}

/// The index at which `name` belongs among `names`: behind the names
/// that come before it.
pub open spec fn rank(names: Seq<Seq<char>>, name: Seq<char>) -> int {
    rank_from(names, name, 0)
}

/// The names below the rank of a name come before it, the one at the rank
/// does not.
pub proof fn lemma_rank_from(names: Seq<Seq<char>>, name: Seq<char>, i: int)
    requires
        0 <= i <= names.len(),
    ensures
        i <= rank_from(names, name, i) <= names.len(),
        forall|j: int| i <= j < rank_from(names, name, i) ==> before(names[j], name),
        rank_from(names, name, i) < names.len() ==> !before(
            names[rank_from(names, name, i)],
            name,
        ),
    decreases names.len() - i,
{
    if i < names.len() && before(names[i], name) {
        lemma_rank_from(names, name, i + 1);
    }
}

/// Putting a new name in at its rank keeps the names ascending.
pub proof fn lemma_insert_keeps_order(names: Seq<Seq<char>>, name: Seq<char>)
    requires
        names_ascend(names),
        index_of(names, name) is None,
    ensures
        0 <= rank(names, name) <= names.len(),
        names_ascend(names.insert(rank(names, name), name)),
{
    let at = rank(names, name);
    lemma_rank_from(names, name, 0);
    lemma_index_from(names, name, 0);
    let after = names.insert(at, name);
    assert forall|i: int, j: int| 0 <= i < j < after.len() implies before(
        #[trigger] after[i],
        #[trigger] after[j],
    ) by {
        if j < at {
            assert(after[i] == names[i] && after[j] == names[j]);
        } else if j == at {
            assert(after[i] == names[i]);
        } else if i == at {
            assert(after[j] == names[j - 1]);
            assert(names[at].take(0) == name.take(0));
            lemma_before_total(names[at], name, 0);
            if j - 1 > at {
                assert(before(names[at], names[j - 1]));
                lemma_before_transitive(name, names[at], names[j - 1], 0);
            }
        } else if i < at {
            assert(after[i] == names[i] && after[j] == names[j - 1]);
        } else {
            assert(after[i] == names[i - 1] && after[j] == names[j - 1]);
        }
    }
}

/// Whether the names of `entries` ascend strictly.
pub fn names_sorted<V>(entries: &Vec<(String, V)>) -> (ok: bool)
    ensures
        ok == names_ascend(names_of(entries@)),
{
    let ghost names = names_of(entries@);
    if entries.len() == 0 {
        return true;
    }
    let mut i: usize = 1;
    while i < entries.len()
        invariant
            1 <= i <= entries.len(),
            names == names_of(entries@),
            names_ascend(names.take(i as int)),
        decreases entries.len() - i,
    {
        assert(names[i - 1] == entries@[i - 1].0@);
        assert(names[i as int] == entries@[i as int].0@);
        if !name_before(entries[i - 1].0.as_str(), entries[i].0.as_str()) {
            return false;
        }
        proof {
            let head = names.take(i as int);
            let next = names.take(i + 1);
            assert forall|a: int, b: int| 0 <= a < b < next.len() implies before(
                #[trigger] next[a],
                #[trigger] next[b],
            ) by {
                if b < i {
                    assert(before(head[a], head[b]));
                } else if a < i - 1 {
                    assert(before(head[a], head[i - 1]));
                    lemma_before_transitive(names[a], names[i - 1], names[i as int], 0);
                }
            }
        }
        i = i + 1;
    }
    proof {
        assert(names.take(names.len() as int) == names);
    }
    true
}

/// The index at which an entry named `name` belongs in `entries`.
pub fn find_rank<V>(entries: &Vec<(String, V)>, name: &String) -> (at: usize)
    ensures
        at == rank(names_of(entries@), name@),
        at <= entries.len(),
{
    let ghost names = names_of(entries@);
    let mut i: usize = 0;
    proof {
        lemma_rank_from(names, name@, 0);
    }
    while i < entries.len() && name_before(entries[i].0.as_str(), name.as_str())
        invariant
            i <= entries.len(),
            names == names_of(entries@),
            rank(names, name@) == rank_from(names, name@, i as int),
        decreases entries.len() - i,
    {
        assert(names[i as int] == entries@[i as int].0@);
        i = i + 1;
    }
    proof {
        if i < entries.len() {
            assert(names[i as int] == entries@[i as int].0@);
        }
    }
    i
}

} // verus!

//! Small tables keyed by strings: a `Vec` of `(key, value)` pairs whose keys are
//! distinct, viewed as a `Map` from the keys' characters to the values.

use vstd::prelude::*;

verus! {

/// No two entries share a key.
pub open spec fn keys_unique<V>(t: Seq<(String, V)>) -> bool {
    forall|i: int, j: int|
        0 <= i < t.len() && 0 <= j < t.len() && i != j ==> #[trigger] t[i].0@ != #[trigger] t[j].0@
}

/// Some entry has key `k`.
pub open spec fn has_key<V>(t: Seq<(String, V)>, k: Seq<char>) -> bool {
    exists|i: int| 0 <= i < t.len() && #[trigger] t[i].0@ == k
}

/// The value stored under `k`.
pub open spec fn value_of<V>(t: Seq<(String, V)>, k: Seq<char>) -> V {
    t[choose|i: int| 0 <= i < t.len() && #[trigger] t[i].0@ == k].1
}

/// The table as a map.
pub open spec fn table_view<V>(t: Seq<(String, V)>) -> Map<Seq<char>, V> {
    Map::new(|k: Seq<char>| has_key(t, k), |k: Seq<char>| value_of(t, k))
}

/// An entry's value is what the map holds under its key.
pub proof fn lemma_table_index<V>(t: Seq<(String, V)>, i: int)
    requires
        keys_unique(t),
        0 <= i < t.len(),
    ensures
        table_view(t).contains_key(t[i].0@),
        table_view(t)[t[i].0@] == t[i].1,
{
    let k = t[i].0@;
    assert(has_key(t, k));
    let j = choose|j: int| 0 <= j < t.len() && #[trigger] t[j].0@ == k;
    assert(j == i);
}

/// Replacing the value of an entry replaces it in the map.
pub proof fn lemma_table_update<V>(t: Seq<(String, V)>, i: int, v: V)
    requires
        keys_unique(t),
        0 <= i < t.len(),
    ensures
        keys_unique(t.update(i, (t[i].0, v))),
        table_view(t.update(i, (t[i].0, v))) == table_view(t).insert(t[i].0@, v),
{
    let u = t.update(i, (t[i].0, v));
    let k = t[i].0@;
    assert forall|a: int, b: int|
        0 <= a < u.len() && 0 <= b < u.len() && a != b implies #[trigger] u[a].0@
        != #[trigger] u[b].0@ by {
        assert(u[a].0@ == t[a].0@);
        assert(u[b].0@ == t[b].0@);
    }
    assert forall|q: Seq<char>| has_key(u, q) == (has_key(t, q) || q == k) by {
        if has_key(t, q) {
            let j = choose|j: int| 0 <= j < t.len() && #[trigger] t[j].0@ == q;
            assert(u[j].0@ == q);
        }
        if has_key(u, q) {
            let j = choose|j: int| 0 <= j < u.len() && #[trigger] u[j].0@ == q;
            assert(t[j].0@ == q);
        }
        if q == k {
            assert(u[i].0@ == q);
        }
    }
    assert forall|q: Seq<char>| has_key(u, q) implies value_of(u, q) == (if q == k {
        v
    } else {
        value_of(t, q)
    }) by {
        let j = choose|j: int| 0 <= j < u.len() && #[trigger] u[j].0@ == q;
        if q == k {
            assert(j == i);
        } else {
            assert(t[j].0@ == q);
            let j2 = choose|j2: int| 0 <= j2 < t.len() && #[trigger] t[j2].0@ == q;
            assert(j2 == j);
        }
    }
    assert(table_view(u) =~= table_view(t).insert(k, v));
}

/// Appending an entry under a new key adds it to the map.
pub proof fn lemma_table_push<V>(t: Seq<(String, V)>, key: String, v: V)
    requires
        keys_unique(t),
        !has_key(t, key@),
    ensures
        keys_unique(t.push((key, v))),
        table_view(t.push((key, v))) == table_view(t).insert(key@, v),
{
    let u = t.push((key, v));
    let n = t.len() as int;
    assert forall|a: int, b: int|
        0 <= a < u.len() && 0 <= b < u.len() && a != b implies #[trigger] u[a].0@
        != #[trigger] u[b].0@ by {
        if a < n && b < n {
            assert(u[a].0@ == t[a].0@);
            assert(u[b].0@ == t[b].0@);
        } else if a < n {
            assert(u[a].0@ == t[a].0@);
            assert(t[a].0@ != key@);
        } else if b < n {
            assert(u[b].0@ == t[b].0@);
            assert(t[b].0@ != key@);
        }
    }
    assert forall|q: Seq<char>| has_key(u, q) == (has_key(t, q) || q == key@) by {
        if has_key(t, q) {
            let j = choose|j: int| 0 <= j < t.len() && #[trigger] t[j].0@ == q;
            assert(u[j].0@ == q);
        }
        if has_key(u, q) {
            let j = choose|j: int| 0 <= j < u.len() && #[trigger] u[j].0@ == q;
            if j < n {
                assert(t[j].0@ == q);
            }
        }
        if q == key@ {
            assert(u[n].0@ == q);
        }
    }
    assert forall|q: Seq<char>| has_key(u, q) implies value_of(u, q) == (if q == key@ {
        v
    } else {
        value_of(t, q)
    }) by {
        let j = choose|j: int| 0 <= j < u.len() && #[trigger] u[j].0@ == q;
        if q == key@ {
            if j < n {
                assert(t[j].0@ == key@);
            }
            assert(j == n);
        } else {
            assert(j < n);
            assert(t[j].0@ == q);
            let j2 = choose|j2: int| 0 <= j2 < t.len() && #[trigger] t[j2].0@ == q;
            assert(j2 == j);
        }
    }
    assert(table_view(u) =~= table_view(t).insert(key@, v));
}

/// The empty table is the empty map.
pub proof fn lemma_table_empty<V>(t: Seq<(String, V)>)
    requires
        t.len() == 0,
    ensures
        keys_unique(t),
        table_view(t) == Map::<Seq<char>, V>::empty(),
{
    assert(table_view(t) =~= Map::<Seq<char>, V>::empty());
}

/// The index of the entry with key `k`, if there is one.
pub fn find_key<V>(t: &Vec<(String, V)>, k: &String) -> (r: Option<usize>)
    ensures
        match r {
            Some(i) => i < t.len() && t@[i as int].0@ == k@,
            None => !has_key(t@, k@),
        },
{
    let mut i: usize = 0;
    while i < t.len()
        invariant
            i <= t.len(),
            forall|j: int| 0 <= j < i ==> #[trigger] t@[j].0@ != k@,
        decreases t.len() - i,
    {
        if t[i].0 == *k {
            return Some(i);
        }
        i = i + 1;
    }
    None
}

/// Stores `v` under `key`, replacing what was there.
pub fn table_set<V>(t: &mut Vec<(String, V)>, key: String, v: V)
    requires
        keys_unique(old(t)@),
    ensures
        keys_unique(final(t)@),
        table_view(final(t)@) == table_view(old(t)@).insert(key@, v),
{
    match find_key(t, &key) {
        Some(i) => {
            let k = t[i].0.clone();
            proof {
                lemma_table_update(t@, i as int, v);
            }
            t.set(i, (k, v));
        },
        None => {
            proof {
                lemma_table_push(t@, key, v);
            }
            t.push((key, v));
        },
    }
}

} // verus!

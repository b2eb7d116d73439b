//! Specification vocabulary for association sequences.
//!
//! Every persistent table of the control plane (name bindings, per-index
//! stores, live indexes, documents) is modelled as a sequence of key/value
//! pairs with pairwise distinct keys. The spec functions and lemmas here
//! are shared by all of them.

use vstd::prelude::*;

verus! {

/// The sequence holds a pair whose key is `k`.
pub open spec fn contains_key<K, V>(s: Seq<(K, V)>, k: K) -> bool {
    exists|i: int| 0 <= i < s.len() && (#[trigger] s[i]).0 == k
}

/// Index of the pair whose key is `k` (meaningful when `contains_key` holds
/// and keys are unique).
pub open spec fn key_index<K, V>(s: Seq<(K, V)>, k: K) -> int {
    choose|i: int| 0 <= i < s.len() && (#[trigger] s[i]).0 == k
}

/// The value bound to `k`.
pub open spec fn value_of<K, V>(s: Seq<(K, V)>, k: K) -> V {
    s[key_index(s, k)].1
}

/// Keys are pairwise distinct.
pub open spec fn unique_keys<K, V>(s: Seq<(K, V)>) -> bool {
    forall|i: int, j: int| 0 <= i < j < s.len() ==> (#[trigger] s[i]).0 != (#[trigger] s[j]).0
}

/// Values are pairwise distinct.
pub open spec fn unique_values<K, V>(s: Seq<(K, V)>) -> bool {
    forall|i: int, j: int| 0 <= i < j < s.len() ==> (#[trigger] s[i]).1 != (#[trigger] s[j]).1
}

/// The sequence holds a pair whose value is `v`.
pub open spec fn contains_value<K, V>(s: Seq<(K, V)>, v: V) -> bool {
    exists|i: int| 0 <= i < s.len() && (#[trigger] s[i]).1 == v
}

/// Appending a fresh key binds it and touches no other binding.
pub proof fn lemma_push<K, V>(s: Seq<(K, V)>, k: K, v: V)
    ensures
        contains_key(s.push((k, v)), k),
        !contains_key(s, k) ==> value_of(s.push((k, v)), k) == v,
        forall|m: K| m != k ==> contains_key(s.push((k, v)), m) == contains_key(s, m),
        forall|m: K| m != k && contains_key(s, m) && unique_keys(s) ==> value_of(
            s.push((k, v)),
            m,
        ) == value_of(s, m),
        unique_keys(s) && !contains_key(s, k) ==> unique_keys(s.push((k, v))),
        unique_values(s) && !contains_value(s, v) ==> unique_values(s.push((k, v))),
        !contains_key(s, k) ==> key_index(s.push((k, v)), k) == s.len(),
{
    let t = s.push((k, v));
    assert(t[s.len() as int] == (k, v));
    assert(forall|i: int| 0 <= i < s.len() ==> t[i] == s[i]);
    assert(contains_key(t, k));
    if !contains_key(s, k) {
        let i = key_index(t, k);
        assert(0 <= i < t.len() && t[i].0 == k);
        assert(i == s.len());
    }
    assert forall|m: K| m != k implies contains_key(t, m) == contains_key(s, m) by {
        if contains_key(s, m) {
            let i = key_index(s, m);
            assert(t[i].0 == m);
        }
        if contains_key(t, m) {
            let i = key_index(t, m);
            assert(i < s.len() && s[i].0 == m);
        }
    }
    assert forall|m: K| m != k && contains_key(s, m) && unique_keys(s) implies value_of(t, m)
        == value_of(s, m) by {
        let i = key_index(s, m);
        assert(t[i].0 == m);
        let j = key_index(t, m);
        assert(j < s.len() && s[j].0 == m);
        if i != j {
            assert(s[i].0 == s[j].0);
        }
        assert(i == j);
    }
}

/// Removing the pair at `i` unbinds its key and touches no other binding.
pub proof fn lemma_remove<K, V>(s: Seq<(K, V)>, i: int)
    requires
        0 <= i < s.len(),
        unique_keys(s),
    ensures
        !contains_key(s.remove(i), s[i].0),
        forall|m: K| m != s[i].0 ==> contains_key(s.remove(i), m) == contains_key(s, m),
        forall|m: K| m != s[i].0 && contains_key(s, m) ==> value_of(s.remove(i), m) == value_of(
            s,
            m,
        ),
        unique_keys(s.remove(i)),
        unique_values(s) ==> unique_values(s.remove(i)),
        unique_values(s) ==> !contains_value(s.remove(i), s[i].1),
{
    let t = s.remove(i);
    s.remove_ensures(i);
    assert forall|j: int| 0 <= j < t.len() && unique_values(s) implies t[j].1 != s[i].1 by {
        if j < i {
            assert(t[j] == s[j]);
        } else {
            assert(t[j] == s[j + 1]);
        }
    }
    assert forall|j: int| 0 <= j < t.len() implies (t[j] == s[j] && j < i) || (t[j] == s[j + 1]
        && j >= i) by {
        if j < i {
            assert(t[j] == s[j]);
        } else {
            assert(t[j] == s[j + 1]);
        }
    }
    assert forall|j: int| 0 <= j < t.len() implies t[j].0 != s[i].0 by {
        if j < i {
            assert(t[j] == s[j]);
        } else {
            assert(t[j] == s[j + 1]);
        }
    }
    assert forall|m: K| m != s[i].0 && contains_key(s, m) implies contains_key(t, m) by {
        let j = key_index(s, m);
        if j < i {
            assert(t[j] == s[j]);
        } else {
            assert(j > i);
            assert(t[j - 1] == s[j]);
        }
    }
    assert forall|m: K| m != s[i].0 && contains_key(t, m) implies contains_key(s, m) by {
        let j = key_index(t, m);
        if j < i {
            assert(t[j] == s[j]);
        } else {
            assert(t[j] == s[j + 1]);
        }
    }
    assert forall|m: K| m != s[i].0 && contains_key(s, m) implies value_of(t, m) == value_of(
        s,
        m,
    ) by {
        let j = key_index(s, m);
        let j2 = key_index(t, m);
        if j2 < i {
            assert(t[j2] == s[j2]);
            assert(j2 == j);
        } else {
            assert(t[j2] == s[j2 + 1]);
            assert(j2 + 1 == j);
        }
    }
}

/// Updating the value at `i` (key kept) rebinds that key alone.
pub proof fn lemma_update_value<K, V>(s: Seq<(K, V)>, i: int, v: V)
    requires
        unique_keys(s),
        0 <= i < s.len(),
    ensures
        unique_keys(s.update(i, (s[i].0, v))),
        contains_key(s.update(i, (s[i].0, v)), s[i].0),
        value_of(s.update(i, (s[i].0, v)), s[i].0) == v,
        forall|m: K|
            m != s[i].0 ==> contains_key(s.update(i, (s[i].0, v)), m) == contains_key(s, m),
        forall|m: K|
            m != s[i].0 && contains_key(s, m) ==> value_of(s.update(i, (s[i].0, v)), m)
                == value_of(s, m),
{
    let t = s.update(i, (s[i].0, v));
    assert(forall|j: int| 0 <= j < s.len() ==> (#[trigger] t[j]).0 == s[j].0);
    assert(t[i] == (s[i].0, v));
    assert(unique_keys(t));
    lemma_key_index_unique(t, i, s[i].0);
    assert forall|m: K| m != s[i].0 && contains_key(s, m) implies contains_key(t, m) && value_of(
        t,
        m,
    ) == value_of(s, m) by {
        let j = key_index(s, m);
        assert(t[j].0 == m);
        lemma_key_index_unique(t, j, m);
        lemma_key_index_unique(s, j, m);
        assert(j != i);
        assert(t[j] == s[j]);
    }
    assert forall|m: K| m != s[i].0 && contains_key(t, m) implies contains_key(s, m) by {
        let j = key_index(t, m);
        assert(j != i);
        assert(s[j].0 == m);
    }
}

/// A unique-keyed sequence binds each key to exactly one index.
pub proof fn lemma_key_index_unique<K, V>(s: Seq<(K, V)>, i: int, k: K)
    requires
        unique_keys(s),
        0 <= i < s.len(),
        s[i].0 == k,
    ensures
        key_index(s, k) == i,
        value_of(s, k) == s[i].1,
        contains_key(s, k),
{
    let j = key_index(s, k);
    assert(0 <= j < s.len() && s[j].0 == k);
    if i < j {
        assert(s[i].0 != s[j].0);
    }
    if j < i {
        assert(s[j].0 != s[i].0);
    }
}

} // verus!

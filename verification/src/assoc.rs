//! Association lists: a sequence of distinct keys beside a sequence of values,
//! read as a finite map.
use vstd::prelude::*;

verus! {

/// The map that sends each key to the value at the key's position.
pub open spec fn assoc<K, V>(keys: Seq<K>, vals: Seq<V>) -> Map<K, V> {
    Map::new(|k: K| keys.contains(k), |k: K| vals[keys.index_of(k)])
}

/// What a map holds under a key, if anything.
pub open spec fn lookup<K, V>(m: Map<K, V>, k: K) -> Option<V> {
    if m.dom().contains(k) {
        Some(m[k])
    } else {
        None
    }
}

/// The key at position `i` maps to the value at position `i`.
pub proof fn lemma_assoc_at<K, V>(keys: Seq<K>, vals: Seq<V>, i: int)
    requires
        keys.no_duplicates(),
        keys.len() == vals.len(),
        0 <= i < keys.len(),
    ensures
        assoc(keys, vals).dom().contains(keys[i]),
        assoc(keys, vals)[keys[i]] == vals[i],
        lookup(assoc(keys, vals), keys[i]) == Some(vals[i]),
{
    assert(keys.contains(keys[i]));
    let j = keys.index_of(keys[i]);
    assert(0 <= j < keys.len() && keys[j] == keys[i]);
}

/// A key that occurs nowhere maps to nothing.
pub proof fn lemma_assoc_absent<K, V>(keys: Seq<K>, vals: Seq<V>, k: K)
    requires
        !keys.contains(k),
    ensures
        !assoc(keys, vals).dom().contains(k),
        lookup(assoc(keys, vals), k) == None::<V>,
{
}

/// Appending a fresh key with its value inserts the pair into the map.
pub proof fn lemma_assoc_push<K, V>(keys: Seq<K>, vals: Seq<V>, k: K, v: V)
    requires
        keys.no_duplicates(),
        keys.len() == vals.len(),
        !keys.contains(k),
    ensures
        keys.push(k).no_duplicates(),
        assoc(keys.push(k), vals.push(v)) == assoc(keys, vals).insert(k, v),
{
    let keys2 = keys.push(k);
    let vals2 = vals.push(v);
    assert forall|i: int, j: int|
        0 <= i < keys2.len() && 0 <= j < keys2.len() && i != j implies keys2[i] != keys2[j] by {
        if i < keys.len() && j < keys.len() {
            assert(keys[i] != keys[j]);
        } else if i < keys.len() {
            assert(keys.contains(keys[i]));
        } else {
            assert(keys.contains(keys[j]));
        }
    }
    let left = assoc(keys2, vals2);
    let right = assoc(keys, vals).insert(k, v);
    assert forall|q: K| left.dom().contains(q) <==> right.dom().contains(q) by {
        if keys2.contains(q) {
            let i = keys2.index_of(q);
            if i < keys.len() {
                assert(keys[i] == q);
            }
        }
        if keys.contains(q) {
            let i = keys.index_of(q);
            assert(keys2[i] == q);
        }
        if q == k {
            assert(keys2[keys.len() as int] == q);
        }
    }
    assert forall|q: K| left.dom().contains(q) implies left[q] == right[q] by {
        let i = keys2.index_of(q);
        assert(0 <= i < keys2.len() && keys2[i] == q);
        lemma_assoc_at(keys2, vals2, i);
        if i < keys.len() {
            assert(keys[i] == q);
            lemma_assoc_at(keys, vals, i);
        }
    }
    assert(left =~= right);
}

/// Replacing the value at position `i` replaces what the key at `i` maps to.
pub proof fn lemma_assoc_update<K, V>(keys: Seq<K>, vals: Seq<V>, i: int, v: V)
    requires
        keys.no_duplicates(),
        keys.len() == vals.len(),
        0 <= i < keys.len(),
    ensures
        assoc(keys, vals.update(i, v)) == assoc(keys, vals).insert(keys[i], v),
{
    let vals2 = vals.update(i, v);
    let left = assoc(keys, vals2);
    let right = assoc(keys, vals).insert(keys[i], v);
    assert(keys.contains(keys[i]));
    assert forall|q: K| left.dom().contains(q) implies left[q] == right[q] by {
        let j = keys.index_of(q);
        assert(0 <= j < keys.len() && keys[j] == q);
        lemma_assoc_at(keys, vals2, j);
        lemma_assoc_at(keys, vals, j);
    }
    assert(left =~= right);
}

} // verus!

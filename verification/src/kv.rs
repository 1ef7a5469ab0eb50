//! Association lists with unique keys, viewed as finite maps.
//!
//! The bridge's persisted state surface is a handful of key-indexed stores.
//! Each is held as a vector of pairs whose keys never repeat; contracts
//! speak of the `Map` the vector denotes.

use vstd::prelude::*;

verus! {

/// The finite map denoted by an association list (later entries win,
/// though with unique keys there is nothing to win over).
pub open spec fn kv_map<K, V>(s: Seq<(K, V)>) -> Map<K, V>
    decreases s.len(),
{
    if s.len() == 0 {
        Map::empty()
    } else {
        kv_map(s.drop_last()).insert(s.last().0, s.last().1)
    }
}

/// No key occurs twice in the association list.
pub open spec fn kv_unique<K, V>(s: Seq<(K, V)>) -> bool {
    forall|i: int, j: int| 0 <= i < j < s.len() ==> (#[trigger] s[i]).0 != (#[trigger] s[j]).0
}

/// A key is in the map exactly when some entry carries it.
pub proof fn lemma_kv_map_domain<K, V>(s: Seq<(K, V)>, k: K)
    ensures
        kv_map(s).contains_key(k) <==> exists|i: int| 0 <= i < s.len() && (#[trigger] s[i]).0 == k,
    decreases s.len(),
{
    if s.len() > 0 {
        lemma_kv_map_domain(s.drop_last(), k);
        if s.last().0 == k {
            assert(s[s.len() - 1].0 == k);
        } else {
            if exists|i: int| 0 <= i < s.len() && (#[trigger] s[i]).0 == k {
                let i = choose|i: int| 0 <= i < s.len() && (#[trigger] s[i]).0 == k;
                assert(s.drop_last()[i].0 == k);
            }
        }
    }
}

/// With unique keys, the entry at any index gives the map's value at its key.
pub proof fn lemma_kv_map_index<K, V>(s: Seq<(K, V)>, i: int)
    requires
        kv_unique(s),
        0 <= i < s.len(),
    ensures
        kv_map(s).contains_key(s[i].0),
        kv_map(s)[s[i].0] == s[i].1,
    decreases s.len(),
{
    if i == s.len() - 1 {
    } else {
        assert(kv_unique(s.drop_last()));
        assert(s.drop_last()[i] == s[i]);
        lemma_kv_map_index(s.drop_last(), i);
        assert(s.last().0 != s[i].0);
    }
}

/// Appending an entry inserts its key.
pub proof fn lemma_kv_map_push<K, V>(s: Seq<(K, V)>, k: K, v: V)
    ensures
        kv_map(s.push((k, v))) == kv_map(s).insert(k, v),
{
    assert(s.push((k, v)).drop_last() =~= s);
}

/// Overwriting the entry that carries `k` updates the map at `k`.
pub proof fn lemma_kv_map_update<K, V>(s: Seq<(K, V)>, i: int, k: K, v: V)
    requires
        kv_unique(s),
        0 <= i < s.len(),
        s[i].0 == k,
    ensures
        kv_map(s.update(i, (k, v))) == kv_map(s).insert(k, v),
    decreases s.len(),
{
    let t = s.update(i, (k, v));
    if i == s.len() - 1 {
        assert(t.drop_last() =~= s.drop_last());
        assert(kv_map(t) == kv_map(s.drop_last()).insert(k, v));
        assert(kv_map(s).insert(k, v) =~= kv_map(s.drop_last()).insert(k, v));
    } else {
        assert(kv_unique(s.drop_last()));
        assert(s.drop_last()[i] == s[i]);
        assert(t.drop_last() =~= s.drop_last().update(i, (k, v)));
        lemma_kv_map_update(s.drop_last(), i, k, v);
        assert(t.last() == s.last());
        assert(s.last().0 != k);
        assert(kv_map(t) == kv_map(s.drop_last()).insert(k, v).insert(s.last().0, s.last().1));
        assert(kv_map(s.drop_last()).insert(k, v).insert(s.last().0, s.last().1) =~= kv_map(
            s.drop_last(),
        ).insert(s.last().0, s.last().1).insert(k, v));
    }
}

/// Overwriting an entry in place, keeping its key, preserves uniqueness.
pub proof fn lemma_kv_unique_update<K, V>(s: Seq<(K, V)>, i: int, k: K, v: V)
    requires
        kv_unique(s),
        0 <= i < s.len(),
        s[i].0 == k,
    ensures
        kv_unique(s.update(i, (k, v))),
{
    let t = s.update(i, (k, v));
    assert forall|p: int, q: int| 0 <= p < q < t.len() implies (#[trigger] t[p]).0 != (
    #[trigger] t[q]).0 by {
        assert(t[p].0 == s[p].0);
        assert(t[q].0 == s[q].0);
    }
}

/// Removing an entry preserves uniqueness.
pub proof fn lemma_kv_unique_remove<K, V>(s: Seq<(K, V)>, i: int)
    requires
        kv_unique(s),
        0 <= i < s.len(),
    ensures
        kv_unique(s.remove(i)),
{
    let t = s.remove(i);
    assert forall|p: int, q: int| 0 <= p < q < t.len() implies (#[trigger] t[p]).0 != (
    #[trigger] t[q]).0 by {
        let p0: int = if p < i {
            p
        } else {
            p + 1
        };
        let q0: int = if q < i {
            q
        } else {
            q + 1
        };
        assert(t[p] == s[p0]);
        assert(t[q] == s[q0]);
    }
}

/// Removing the entry that carries `k` removes `k` from the map.
pub proof fn lemma_kv_map_remove<K, V>(s: Seq<(K, V)>, i: int)
    requires
        kv_unique(s),
        0 <= i < s.len(),
    ensures
        kv_map(s.remove(i)) == kv_map(s).remove(s[i].0),
    decreases s.len(),
{
    let k = s[i].0;
    if i == s.len() - 1 {
        assert(s.remove(i) =~= s.drop_last());
        lemma_kv_map_domain(s.drop_last(), k);
        assert(forall|j: int|
            0 <= j < s.drop_last().len() ==> (#[trigger] s.drop_last()[j]).0 != k);
        assert(!kv_map(s.drop_last()).contains_key(k));
        assert(kv_map(s.drop_last()).insert(k, s[i].1).remove(k) =~= kv_map(s.drop_last()));
    } else {
        assert(kv_unique(s.drop_last()));
        assert(s.drop_last()[i] == s[i]);
        assert(s.remove(i).drop_last() =~= s.drop_last().remove(i));
        assert(s.remove(i).len() == s.len() - 1);
        assert(s.remove(i).last() == s.last());
        lemma_kv_map_remove(s.drop_last(), i);
        assert(s.last().0 != k);
        assert(kv_map(s.remove(i)) == kv_map(s.drop_last()).remove(k).insert(
            s.last().0,
            s.last().1,
        ));
        assert(kv_map(s.drop_last()).remove(k).insert(s.last().0, s.last().1) =~= kv_map(
            s.drop_last(),
        ).insert(s.last().0, s.last().1).remove(k));
    }
}

} // verus!

//! First-match lookup over a sequence of key-value pairs, and the facts that
//! make such a sequence with distinct keys behave as a keyed table. Every
//! keyed store of the engine (games, moves, expiry buckets, balances) is a
//! vector of pairs whose view is read through these functions.

use vstd::prelude::*;

verus! {

/// The value at the first pair whose key is `k`, if any.
pub open spec fn lookup<K, V>(s: Seq<(K, V)>, k: K) -> Option<V>
    decreases s.len(),
{
    if s.len() == 0 {
        None
    } else if s[0].0 == k {
        Some(s[0].1)
    } else {
        lookup(s.drop_first(), k)
    }
}

/// No two pairs share a key.
pub open spec fn unique_keys<K, V>(s: Seq<(K, V)>) -> bool {
    forall|i: int, j: int| 0 <= i < j < s.len() ==> s[i].0 != s[j].0
}

/// A pair at index `i` whose key no earlier pair holds is what lookup finds.
pub proof fn lemma_lookup_at_index<K, V>(s: Seq<(K, V)>, k: K, i: int)
    requires
        0 <= i < s.len(),
        s[i].0 == k,
        forall|j: int| 0 <= j < i ==> s[j].0 != k,
    ensures
        lookup(s, k) == Some(s[i].1),
    decreases i,
{
    if i > 0 {
        lemma_lookup_at_index(s.drop_first(), k, i - 1);
    }
}

/// A key that no pair holds is not found.
pub proof fn lemma_lookup_absent<K, V>(s: Seq<(K, V)>, k: K)
    requires
        forall|i: int| 0 <= i < s.len() ==> s[i].0 != k,
    ensures
        lookup(s, k) is None,
    decreases s.len(),
{
    if s.len() > 0 {
        lemma_lookup_absent(s.drop_first(), k);
    }
}

/// Appending a pair leaves every present key as it was and makes the new key
/// found if it was absent.
pub proof fn lemma_lookup_push<K, V>(s: Seq<(K, V)>, p: (K, V), k: K)
    ensures
        lookup(s.push(p), k) == if lookup(s, k) is Some {
            lookup(s, k)
        } else if p.0 == k {
            Some(p.1)
        } else {
            None::<V>
        },
    decreases s.len(),
{
    if s.len() == 0 {
        assert(s.push(p)[0] == p);
        assert(s.push(p).drop_first() =~= Seq::<(K, V)>::empty());
        assert(lookup(Seq::<(K, V)>::empty(), k) is None);
        assert(lookup(s, k) is None);
    } else {
        assert(s.push(p)[0] == s[0]);
        assert(s.push(p).drop_first() =~= s.drop_first().push(p));
        lemma_lookup_push(s.drop_first(), p, k);
    }
}

/// With distinct keys, removing the pair at index `i` unfinds its key and
/// leaves every other key's value as it was.
pub proof fn lemma_lookup_remove<K, V>(s: Seq<(K, V)>, i: int, k: K)
    requires
        unique_keys(s),
        0 <= i < s.len(),
    ensures
        lookup(s.remove(i), k) == if s[i].0 == k {
            None::<V>
        } else {
            lookup(s, k)
        },
    decreases s.len(),
{
    if i == 0 {
        assert(s.remove(0) =~= s.drop_first());
        if s[0].0 == k {
            assert(forall|j: int| 0 <= j < s.drop_first().len() ==> s.drop_first()[j].0 != k);
            lemma_lookup_absent(s.drop_first(), k);
        }
    } else {
        assert(s.remove(i).drop_first() =~= s.drop_first().remove(i - 1));
        lemma_lookup_remove(s.drop_first(), i - 1, k);
    }
}

/// With distinct keys, replacing the value at index `i` updates that key and
/// leaves every other key's value as it was.
pub proof fn lemma_lookup_update<K, V>(s: Seq<(K, V)>, i: int, v: V, k: K)
    requires
        unique_keys(s),
        0 <= i < s.len(),
    ensures
        lookup(s.update(i, (s[i].0, v)), k) == if s[i].0 == k {
            Some(v)
        } else {
            lookup(s, k)
        },
    decreases s.len(),
{
    if i == 0 {
        if s[0].0 != k {
            assert(s.update(0, (s[0].0, v)).drop_first() =~= s.drop_first());
        }
    } else {
        assert(s.update(i, (s[i].0, v)).drop_first() =~= s.drop_first().update(
            i - 1,
            (s[i].0, v),
        ));
        lemma_lookup_update(s.drop_first(), i - 1, v, k);
    }
}

/// Distinct keys survive appending a pair with an absent key.
pub proof fn lemma_unique_push<K, V>(s: Seq<(K, V)>, p: (K, V))
    requires
        unique_keys(s),
        lookup(s, p.0) is None,
    ensures
        unique_keys(s.push(p)),
{
    assert forall|i: int| 0 <= i < s.len() implies s[i].0 != p.0 by {
        if s[i].0 == p.0 {
            lemma_lookup_at_first_match(s, p.0);
        }
    }
}

/// If some pair holds the key, lookup finds a value.
pub proof fn lemma_lookup_at_first_match<K, V>(s: Seq<(K, V)>, k: K)
    requires
        exists|i: int| 0 <= i < s.len() && s[i].0 == k,
    ensures
        lookup(s, k) is Some,
    decreases s.len(),
{
    let i = choose|i: int| 0 <= i < s.len() && s[i].0 == k;
    if s[0].0 != k {
        assert(s.drop_first()[i - 1].0 == k);
        lemma_lookup_at_first_match(s.drop_first(), k);
    }
}

/// Distinct keys survive removing a pair.
pub proof fn lemma_unique_remove<K, V>(s: Seq<(K, V)>, i: int)
    requires
        unique_keys(s),
        0 <= i < s.len(),
    ensures
        unique_keys(s.remove(i)),
{
    assert forall|x: int, y: int|
        0 <= x < y < s.remove(i).len() implies s.remove(i)[x].0 != s.remove(i)[y].0 by {
        let sx = if x < i { x } else { x + 1 };
        let sy = if y < i { y } else { y + 1 };
        assert(s.remove(i)[x] == s[sx]);
        assert(s.remove(i)[y] == s[sy]);
    }
}

/// Distinct keys survive replacing the value at an index.
pub proof fn lemma_unique_update<K, V>(s: Seq<(K, V)>, i: int, v: V)
    requires
        unique_keys(s),
        0 <= i < s.len(),
    ensures
        unique_keys(s.update(i, (s[i].0, v))),
{
}

/// The index of the first pair whose key is `k`; meaningful only when the key
/// is present.
pub open spec fn key_index<K, V>(s: Seq<(K, V)>, k: K) -> int
    decreases s.len(),
{
    if s.len() == 0 {
        0
    } else if s[0].0 == k {
        0
    } else {
        1 + key_index(s.drop_first(), k)
    }
}

/// When the key is present, `key_index` points at its pair, and no earlier
/// pair holds the key.
pub proof fn lemma_key_index<K, V>(s: Seq<(K, V)>, k: K)
    requires
        lookup(s, k) is Some,
    ensures
        0 <= key_index(s, k) < s.len(),
        s[key_index(s, k)] == (k, lookup(s, k)->Some_0),
        forall|j: int| 0 <= j < key_index(s, k) ==> s[j].0 != k,
    decreases s.len(),
{
    if s[0].0 == k {
        assert(s[0] == (k, lookup(s, k)->Some_0));
    } else {
        lemma_key_index(s.drop_first(), k);
        let i = key_index(s, k);
        assert(s.drop_first()[i - 1] == s[i]);
        assert forall|j: int| 0 <= j < i implies s[j].0 != k by {
            if j > 0 {
                assert(s[j] == s.drop_first()[j - 1]);
            }
        }
    }
}

/// The sequence with `k` bound to `v`: the first pair holding `k` is
/// replaced, or a new pair is appended when the key is absent.
pub open spec fn store<K, V>(s: Seq<(K, V)>, k: K, v: V) -> Seq<(K, V)> {
    if lookup(s, k) is Some {
        s.update(key_index(s, k), (k, v))
    } else {
        s.push((k, v))
    }
}

/// Storing binds exactly the stored key and keeps keys distinct.
pub proof fn lemma_store<K, V>(s: Seq<(K, V)>, k: K, v: V, k2: K)
    requires
        unique_keys(s),
    ensures
        unique_keys(store(s, k, v)),
        lookup(store(s, k, v), k2) == if k2 == k {
            Some(v)
        } else {
            lookup(s, k2)
        },
    decreases s.len(),
{
    if lookup(s, k) is Some {
        lemma_key_index(s, k);
        let i = key_index(s, k);
        assert(s.update(i, (k, v)) =~= s.update(i, (s[i].0, v)));
        lemma_unique_update(s, i, v);
        lemma_lookup_update(s, i, v, k2);
    } else {
        lemma_unique_push(s, (k, v));
        lemma_lookup_push(s, (k, v), k2);
    }
}

/// The sequence with any pair holding `k` taken out.
pub open spec fn remove_key<K, V>(s: Seq<(K, V)>, k: K) -> Seq<(K, V)> {
    if lookup(s, k) is Some {
        s.remove(key_index(s, k))
    } else {
        s
    }
}

/// Removing unbinds exactly the removed key and keeps keys distinct.
pub proof fn lemma_remove_key<K, V>(s: Seq<(K, V)>, k: K, k2: K)
    requires
        unique_keys(s),
    ensures
        unique_keys(remove_key(s, k)),
        lookup(remove_key(s, k), k2) == if k2 == k {
            None::<V>
        } else {
            lookup(s, k2)
        },
{
    if lookup(s, k) is Some {
        lemma_key_index(s, k);
        let i = key_index(s, k);
        lemma_unique_remove(s, i);
        lemma_lookup_remove(s, i, k2);
    }
}

} // verus!

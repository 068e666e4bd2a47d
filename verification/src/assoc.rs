//! A small theory of association lists with `u32` keys: the registries
//! (presence, notification subscriptions) are vectors of key/value
//! entries with distinct keys, abstracted as a `Map` in every contract.

use vstd::prelude::*;

verus! {

/// The map an association list denotes; later entries win, though the
/// registries keep keys distinct anyway.
pub open spec fn assoc_map<V>(s: Seq<(u32, V)>) -> Map<u32, V>
    decreases s.len(),
{
    if s.len() == 0 {
        Map::empty()
    } else {
        assoc_map(s.drop_last()).insert(s.last().0, s.last().1)
    }
}

pub open spec fn keys_distinct<V>(s: Seq<(u32, V)>) -> bool {
    forall|i: int, j: int| 0 <= i < j < s.len() ==> (#[trigger] s[i]).0 != (#[trigger] s[j]).0
}

/// With distinct keys, the entry at index `i` gives the map's value for
/// its key.
pub proof fn lemma_assoc_index<V>(s: Seq<(u32, V)>, i: int)
    requires
        keys_distinct(s),
        0 <= i < s.len(),
    ensures
        assoc_map(s).contains_key(s[i].0),
        assoc_map(s)[s[i].0] == s[i].1,
    decreases s.len(),
{
    if i == s.len() - 1 {
    } else {
        assert(s.drop_last()[i] == s[i]);
        assert(keys_distinct(s.drop_last())) by {
            assert(forall|a: int, b: int|
                0 <= a < b < s.drop_last().len() ==> s.drop_last()[a] == s[a] && s.drop_last()[b]
                    == s[b]);
        }
        lemma_assoc_index(s.drop_last(), i);
        assert(s.last().0 != s[i].0);
    }
}

/// Appending a fresh entry inserts its pair.
pub proof fn lemma_assoc_push<V>(s: Seq<(u32, V)>, k: u32, v: V)
    ensures
        assoc_map(s.push((k, v))) == assoc_map(s).insert(k, v),
{
    assert(s.push((k, v)).drop_last() =~= s);
}

/// With distinct keys, replacing the entry at index `i` re-inserts its
/// key with the new value.
pub proof fn lemma_assoc_update<V>(s: Seq<(u32, V)>, i: int, v: V)
    requires
        keys_distinct(s),
        0 <= i < s.len(),
    ensures
        assoc_map(s.update(i, (s[i].0, v))) == assoc_map(s).insert(s[i].0, v),
    decreases s.len(),
{
    let t = s.update(i, (s[i].0, v));
    if i == s.len() - 1 {
        assert(t.drop_last() =~= s.drop_last());
    } else {
        assert(keys_distinct(s.drop_last())) by {
            assert(forall|a: int, b: int|
                0 <= a < b < s.drop_last().len() ==> s.drop_last()[a] == s[a] && s.drop_last()[b]
                    == s[b]);
        }
        assert(t.drop_last() =~= s.drop_last().update(i, (s[i].0, v)));
        assert(s.drop_last()[i] == s[i]);
        lemma_assoc_update(s.drop_last(), i, v);
        assert(t.last() == s.last());
        assert(s.last().0 != s[i].0);
        assert(assoc_map(t) =~= assoc_map(s).insert(s[i].0, v)) by {
            assert(assoc_map(t) == assoc_map(s.drop_last()).insert(s[i].0, v).insert(
                s.last().0,
                s.last().1,
            ));
            assert(assoc_map(s) == assoc_map(s.drop_last()).insert(s.last().0, s.last().1));
        }
    }
}

/// With distinct keys, removing the entry at index `i` removes its key.
pub proof fn lemma_assoc_remove<V>(s: Seq<(u32, V)>, i: int)
    requires
        keys_distinct(s),
        0 <= i < s.len(),
    ensures
        assoc_map(s.remove(i)) == assoc_map(s).remove(s[i].0),
    decreases s.len(),
{
    let t = s.remove(i);
    if i == s.len() - 1 {
        assert(t =~= s.drop_last());
        lemma_assoc_not_contains_key(s.drop_last(), s[i].0);
        assert(assoc_map(s.drop_last()) =~= assoc_map(s).remove(s[i].0));
    } else {
        assert(keys_distinct(s.drop_last())) by {
            assert(forall|a: int, b: int|
                0 <= a < b < s.drop_last().len() ==> s.drop_last()[a] == s[a] && s.drop_last()[b]
                    == s[b]);
        }
        assert(t.drop_last() =~= s.drop_last().remove(i));
        assert(s.drop_last()[i] == s[i]);
        lemma_assoc_remove(s.drop_last(), i);
        assert(t.last() == s.last());
        assert(s.last().0 != s[i].0);
        assert(assoc_map(t) =~= assoc_map(s).remove(s[i].0)) by {
            assert(assoc_map(t) == assoc_map(s.drop_last()).remove(s[i].0).insert(
                s.last().0,
                s.last().1,
            ));
            assert(assoc_map(s) == assoc_map(s.drop_last()).insert(s.last().0, s.last().1));
        }
    }
}

/// A key carried by no entry is not in the map.
pub proof fn lemma_assoc_not_contains_key<V>(s: Seq<(u32, V)>, k: u32)
    requires
        forall|i: int| 0 <= i < s.len() ==> (#[trigger] s[i]).0 != k,
    ensures
        !assoc_map(s).contains_key(k),
    decreases s.len(),
{
    if s.len() > 0 {
        assert(forall|i: int|
            0 <= i < s.drop_last().len() ==> (#[trigger] s.drop_last()[i]).0 == s[i].0);
        lemma_assoc_not_contains_key(s.drop_last(), k);
        assert(s.last().0 != k);
    }
}

} // verus!

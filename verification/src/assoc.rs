//! Association lists: a sequence of pairs in which no key stands twice, read
//! as the mapping it lists. The library keeps its small tables as vectors and
//! states what they hold through these functions.

use vstd::prelude::*;

verus! {

/// No key stands twice in `l`.
pub open spec fn keys_distinct<K, V>(l: Seq<(K, V)>) -> bool {
    forall|i: int, j: int| 0 <= i < j < l.len() ==> l[i].0 != l[j].0
}

/// Whether `key` stands in `l`.
pub open spec fn lists<K, V>(l: Seq<(K, V)>, key: K) -> bool {
    exists|i: int| 0 <= i < l.len() && l[i].0 == key
}

/// Where `key` stands in `l`, if it does.
pub open spec fn place_of<K, V>(l: Seq<(K, V)>, key: K) -> int {
    choose|i: int| 0 <= i < l.len() && l[i].0 == key
}

/// The mapping that `l` lists.
pub open spec fn map_of<K, V>(l: Seq<(K, V)>) -> Map<K, V> {
    Map::new(|k: K| lists(l, k), |k: K| l[place_of(l, k)].1)
}

/// `l` with `value` under `key`: in the place where `key` stands, or at the
/// end if it is new.
pub open spec fn put<K, V>(l: Seq<(K, V)>, key: K, value: V) -> Seq<(K, V)> {
    if lists(l, key) {
        l.update(place_of(l, key), (key, value))
    } else {
        l.push((key, value))
    }
}

/// In a list without repeats, a key is found where it stands.
pub proof fn lemma_place_of<K, V>(l: Seq<(K, V)>, i: int)
    requires
        keys_distinct(l),
        0 <= i < l.len(),
    ensures
        lists(l, l[i].0),
        place_of(l, l[i].0) == i,
        map_of(l).dom().contains(l[i].0),
        map_of(l)[l[i].0] == l[i].1,
{
    let j = place_of(l, l[i].0);
    assert(0 <= j < l.len() && l[j].0 == l[i].0);
    if j < i {
        assert(l[j].0 != l[i].0);
    } else if i < j {
        assert(l[i].0 != l[j].0);
    }
}

/// Putting a value into the list puts it into the mapping, and keeps the list
/// free of repeats.
pub proof fn lemma_put<K, V>(l: Seq<(K, V)>, key: K, value: V)
    requires
        keys_distinct(l),
    ensures
        keys_distinct(put(l, key, value)),
        map_of(put(l, key, value)) == map_of(l).insert(key, value),
{
    let after = put(l, key, value);
    if lists(l, key) {
        let i = place_of(l, key);
        assert(forall|j: int| 0 <= j < after.len() ==> after[j].0 == l[j].0);
        lemma_place_of(l, i);
        lemma_place_of(after, i);
        assert forall|k: K| lists(after, k) == lists(l, k) by {
            if lists(l, k) {
                let j = place_of(l, k);
                assert(after[j].0 == k);
            }
            if lists(after, k) {
                let j = place_of(after, k);
                assert(l[j].0 == k);
            }
        }
        assert forall|k: K| lists(after, k) && k != key implies after[place_of(after, k)].1 == l[place_of(
            l,
            k,
        )].1 by {
            let j = place_of(after, k);
            lemma_place_of(after, j);
            lemma_place_of(l, j);
        }
        assert(map_of(after) =~= map_of(l).insert(key, value));
    } else {
        assert(keys_distinct(after));
        lemma_place_of(after, l.len() as int);
        assert forall|k: K| lists(after, k) == (lists(l, k) || k == key) by {
            if lists(l, k) {
                let j = place_of(l, k);
                assert(after[j].0 == k);
            }
            if lists(after, k) && k != key {
                let j = place_of(after, k);
                assert(l[j].0 == k);
            }
        }
        assert forall|k: K| lists(l, k) implies after[place_of(after, k)].1 == l[place_of(l, k)].1 by {
            let j = place_of(l, k);
            lemma_place_of(l, j);
            lemma_place_of(after, j);
        }
        assert(map_of(after) =~= map_of(l).insert(key, value));
    }
}

} // verus!

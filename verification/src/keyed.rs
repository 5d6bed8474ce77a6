//! Sequences of key/value pairs in which no key occurs twice: the facts
//! that every table of the library kept as such a sequence rests on.

use vstd::prelude::*;

verus! {

/// No key occurs in two pairs.
pub open spec fn distinct_keys<K, V>(es: Seq<(K, V)>) -> bool {
    forall|i: int, j: int| 0 <= i < j < es.len() ==> #[trigger] es[i].0 != #[trigger] es[j].0
}

/// Some pair has key `k`.
pub open spec fn has_key<K, V>(es: Seq<(K, V)>, k: K) -> bool {
    exists|i: int| 0 <= i < es.len() && #[trigger] es[i].0 == k
}

/// The position of a pair with key `k`.
pub open spec fn key_index<K, V>(es: Seq<(K, V)>, k: K) -> int {
    choose|i: int| 0 <= i < es.len() && #[trigger] es[i].0 == k
}

/// With distinct keys, the pair at `i` is the one that `key_index` finds.
pub proof fn lemma_key_index<K, V>(es: Seq<(K, V)>, k: K, i: int)
    requires
        distinct_keys(es),
        0 <= i < es.len(),
        es[i].0 == k,
    ensures
        has_key(es, k),
        key_index(es, k) == i,
{
    let j = key_index(es, k);
    assert(es[j].0 == k);
    if j < i {
        assert(es[j].0 != es[i].0);
    } else if i < j {
        assert(es[i].0 != es[j].0);
    }
}

/// With distinct keys, there are as many keys as pairs.
pub proof fn lemma_key_count<K, V>(es: Seq<(K, V)>)
    requires
        distinct_keys(es),
    ensures
        Set::new(|k: K| has_key(es, k)).finite(),
        Set::new(|k: K| has_key(es, k)).len() == es.len(),
{
    let keys = es.map_values(|e: (K, V)| e.0);
    assert(keys.no_duplicates()) by {
        assert forall|i: int, j: int|
            0 <= i < keys.len() && 0 <= j < keys.len() && i != j implies keys[i] != keys[j] by {
            if i < j {
                assert(es[i].0 != es[j].0);
            } else {
                assert(es[j].0 != es[i].0);
            }
        }
    }
    assert(Set::new(|k: K| has_key(es, k)) =~= keys.to_set()) by {
        assert forall|k: K| has_key(es, k) implies keys.to_set().contains(k) by {
            let i = key_index(es, k);
            assert(keys[i] == k);
        }
        assert forall|k: K| keys.to_set().contains(k) implies has_key(es, k) by {
            let i = choose|i: int| 0 <= i < keys.len() && keys[i] == k;
            assert(es[i].0 == k);
        }
    }
    keys.unique_seq_to_set();
}

} // verus!

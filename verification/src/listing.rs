//! Lists without repeats that name the keys of a map, and what one step of
//! a pass over such a list does.

use vstd::prelude::*;

verus! {

/// Whether `key` stands at or after position `from`.
pub open spec fn listed_from<K>(keys: Seq<K>, from: int, key: K) -> bool {
    exists|j: int| from <= j < keys.len() && keys[j] == key
}

/// Whether `key` stands before position `upto`.
pub open spec fn listed_before<K>(keys: Seq<K>, upto: int, key: K) -> bool {
    exists|j: int| 0 <= j < upto && keys[j] == key
}

/// Every key of the list stands at or after its start and before its end,
/// and none stands after its end.
pub proof fn lemma_listing_ends<K>(keys: Seq<K>)
    ensures
        forall|k: K| keys.contains(k) ==> #[trigger] listed_from(keys, 0, k),
        forall|k: K| keys.contains(k) ==> #[trigger] listed_before(keys, keys.len() as int, k),
        forall|k: K| !#[trigger] listed_from(keys, keys.len() as int, k),
{
    assert forall|k: K| keys.contains(k) implies #[trigger] listed_from(keys, 0, k) by {
        let j = choose|j: int| 0 <= j < keys.len() && keys[j] == k;
        assert(0 <= j < keys.len() && keys[j] == k);
    }
    assert forall|k: K| keys.contains(k) implies #[trigger] listed_before(
        keys,
        keys.len() as int,
        k,
    ) by {
        let j = choose|j: int| 0 <= j < keys.len() && keys[j] == k;
        assert(0 <= j < keys.len() && keys[j] == k);
    }
    assert forall|k: K| !#[trigger] listed_from(keys, keys.len() as int, k) by {
        if listed_from(keys, keys.len() as int, k) {
            let j = choose|j: int| keys.len() <= j < keys.len() && keys[j] == k;
        }
    }
}

/// Passing position `i` of a list without repeats moves the key that stands
/// there, and no other, from the part still ahead to the part behind.
pub proof fn lemma_listing_step<K>(keys: Seq<K>, i: int)
    requires
        keys.no_duplicates(),
        0 <= i < keys.len(),
    ensures
        listed_from(keys, i, keys[i]),
        !listed_from(keys, i + 1, keys[i]),
        !listed_before(keys, i, keys[i]),
        listed_before(keys, i + 1, keys[i]),
        forall|k: K|
            k != keys[i] ==> #[trigger] listed_from(keys, i + 1, k) == listed_from(keys, i, k),
        forall|k: K|
            k != keys[i] ==> #[trigger] listed_before(keys, i + 1, k) == listed_before(keys, i, k),
{
    let key = keys[i];
    assert(i <= i < keys.len() && keys[i] == key);
    if listed_from(keys, i + 1, key) {
        let j = choose|j: int| i + 1 <= j < keys.len() && keys[j] == key;
        assert(keys[j] == keys[i]);
    }
    if listed_before(keys, i, key) {
        let j = choose|j: int| 0 <= j < i && keys[j] == key;
        assert(keys[j] == keys[i]);
    }
    assert(0 <= i < i + 1 && keys[i] == key);
    assert forall|k: K| k != keys[i] implies #[trigger] listed_from(keys, i + 1, k)
        == listed_from(keys, i, k) by {
        if listed_from(keys, i, k) {
            let j = choose|j: int| i <= j < keys.len() && keys[j] == k;
            assert(i + 1 <= j < keys.len() && keys[j] == k);
        }
        if listed_from(keys, i + 1, k) {
            let j = choose|j: int| i + 1 <= j < keys.len() && keys[j] == k;
            assert(i <= j < keys.len() && keys[j] == k);
        }
    }
    assert forall|k: K| k != keys[i] implies #[trigger] listed_before(keys, i + 1, k)
        == listed_before(keys, i, k) by {
        if listed_before(keys, i, k) {
            let j = choose|j: int| 0 <= j < i && keys[j] == k;
            assert(0 <= j < i + 1 && keys[j] == k);
        }
        if listed_before(keys, i + 1, k) {
            let j = choose|j: int| 0 <= j < i + 1 && keys[j] == k;
            assert(0 <= j < i && keys[j] == k);
        }
    }
}

/// Appending a key that is not yet listed adds exactly that key and keeps
/// the list without repeats.
pub proof fn lemma_listing_push<K>(keys: Seq<K>, key: K)
    requires
        keys.no_duplicates(),
        !keys.contains(key),
    ensures
        keys.push(key).no_duplicates(),
        forall|k: K| #[trigger] keys.push(key).contains(k) == (keys.contains(k) || k == key),
{
    let r = keys.push(key);
    assert forall|k: K| #[trigger] r.contains(k) == (keys.contains(k) || k == key) by {
        if r.contains(k) {
            let a = choose|a: int| 0 <= a < r.len() && r[a] == k;
            if a < keys.len() {
                assert(keys[a] == k);
            }
        }
        if keys.contains(k) {
            let a = choose|a: int| 0 <= a < keys.len() && keys[a] == k;
            assert(r[a] == k);
        }
        if k == key {
            assert(r[keys.len() as int] == k);
        }
    }
}

} // verus!

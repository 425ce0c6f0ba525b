//! Lists whose items are told apart by a text key, seen as maps from key to
//! item. The supervisor's tables are such lists.

use vstd::prelude::*;

verus! {

/// Some item of `s` has the key `k`.
pub open spec fn has_key<T>(s: Seq<T>, key: spec_fn(T) -> Seq<char>, k: Seq<char>) -> bool {
    exists|i: int| 0 <= i < s.len() && key(#[trigger] s[i]) == k
}

/// The place of an item with the key `k`, where there is one.
pub open spec fn place_of<T>(s: Seq<T>, key: spec_fn(T) -> Seq<char>, k: Seq<char>) -> int {
    choose|i: int| 0 <= i < s.len() && key(#[trigger] s[i]) == k
}

/// No two items of `s` have the same key.
pub open spec fn distinct_keys<T>(s: Seq<T>, key: spec_fn(T) -> Seq<char>) -> bool {
    forall|i: int, j: int|
        0 <= i < j < s.len() ==> key(#[trigger] s[i]) != key(#[trigger] s[j])
}

/// The list as a map from each key to the value of the item that has it.
pub open spec fn as_map<T, V>(s: Seq<T>, key: spec_fn(T) -> Seq<char>, val: spec_fn(T) -> V)
    -> Map<Seq<char>, V> {
    Map::new(|k: Seq<char>| has_key(s, key, k), |k: Seq<char>| val(s[place_of(s, key, k)]))
}

/// In a list of distinct keys the item at `i` is the one found under its key.
pub proof fn lemma_place<T, V>(
    s: Seq<T>,
    key: spec_fn(T) -> Seq<char>,
    val: spec_fn(T) -> V,
    i: int,
)
    requires
        distinct_keys(s, key),
        0 <= i < s.len(),
    ensures
        has_key(s, key, key(s[i])),
        place_of(s, key, key(s[i])) == i,
        as_map(s, key, val).dom().contains(key(s[i])),
        as_map(s, key, val)[key(s[i])] == val(s[i]),
{
    let k = key(s[i]);
    let p = place_of(s, key, k);
    assert(0 <= p < s.len() && key(s[p]) == k);
    if p < i {
        assert(key(s[p]) != key(s[i]));
    } else if i < p {
        assert(key(s[i]) != key(s[p]));
    }
}

/// Appending an item under a new key inserts it into the map.
pub proof fn lemma_push<T, V>(
    s: Seq<T>,
    key: spec_fn(T) -> Seq<char>,
    val: spec_fn(T) -> V,
    x: T,
)
    requires
        distinct_keys(s, key),
        !has_key(s, key, key(x)),
    ensures
        distinct_keys(s.push(x), key),
        as_map(s.push(x), key, val) == as_map(s, key, val).insert(key(x), val(x)),
{
    let t = s.push(x);
    assert forall|i: int, j: int| 0 <= i < j < t.len() implies key(#[trigger] t[i]) != key(
        #[trigger] t[j],
    ) by {
        if j < s.len() {
            assert(key(s[i]) != key(s[j]));
        } else {
            assert(t[i] == s[i]);
        }
    }
    assert forall|k: Seq<char>| has_key(t, key, k) == (k == key(x) || has_key(s, key, k)) by {
        if has_key(t, key, k) {
            let p = place_of(t, key, k);
            if p < s.len() {
                assert(t[p] == s[p]);
            }
        }
        if has_key(s, key, k) {
            let p = place_of(s, key, k);
            assert(t[p] == s[p]);
        }
        if k == key(x) {
            assert(t[s.len() as int] == x);
        }
    }
    assert forall|k: Seq<char>| has_key(t, key, k) implies #[trigger] as_map(t, key, val)[k]
        == as_map(s, key, val).insert(key(x), val(x))[k] by {
        let p = place_of(t, key, k);
        lemma_place(t, key, val, p);
        if p < s.len() {
            assert(t[p] == s[p]);
            lemma_place(s, key, val, p);
        }
    }
    assert(as_map(t, key, val) =~= as_map(s, key, val).insert(key(x), val(x)));
}

/// Replacing an item by one with the same key replaces it in the map.
pub proof fn lemma_update<T, V>(
    s: Seq<T>,
    key: spec_fn(T) -> Seq<char>,
    val: spec_fn(T) -> V,
    i: int,
    x: T,
)
    requires
        distinct_keys(s, key),
        0 <= i < s.len(),
        key(s[i]) == key(x),
    ensures
        distinct_keys(s.update(i, x), key),
        as_map(s.update(i, x), key, val) == as_map(s, key, val).insert(key(x), val(x)),
{
    let t = s.update(i, x);
    assert forall|a: int, b: int| 0 <= a < b < t.len() implies key(#[trigger] t[a]) != key(
        #[trigger] t[b],
    ) by {
        assert(key(s[a]) != key(s[b]));
    }
    assert forall|k: Seq<char>| has_key(t, key, k) == has_key(s, key, k) by {
        if has_key(t, key, k) {
            let p = place_of(t, key, k);
            assert(key(s[p]) == k);
        }
        if has_key(s, key, k) {
            let p = place_of(s, key, k);
            assert(key(t[p]) == k);
        }
    }
    lemma_place(s, key, val, i);
    assert forall|k: Seq<char>| has_key(t, key, k) implies #[trigger] as_map(t, key, val)[k]
        == as_map(s, key, val).insert(key(x), val(x))[k] by {
        let p = place_of(t, key, k);
        lemma_place(t, key, val, p);
        lemma_place(s, key, val, p);
    }
    assert(as_map(t, key, val) =~= as_map(s, key, val).insert(key(x), val(x)));
}

/// Taking an item out of the list removes its key from the map.
pub proof fn lemma_remove<T, V>(
    s: Seq<T>,
    key: spec_fn(T) -> Seq<char>,
    val: spec_fn(T) -> V,
    i: int,
)
    requires
        distinct_keys(s, key),
        0 <= i < s.len(),
    ensures
        distinct_keys(s.remove(i), key),
        as_map(s.remove(i), key, val) == as_map(s, key, val).remove(key(s[i])),
{
    let t = s.remove(i);
    assert forall|a: int, b: int| 0 <= a < b < t.len() implies key(#[trigger] t[a]) != key(
        #[trigger] t[b],
    ) by {
        let a2 = if a < i { a } else { a + 1 };
        let b2 = if b < i { b } else { b + 1 };
        assert(t[a] == s[a2] && t[b] == s[b2]);
        assert(key(s[a2]) != key(s[b2]));
    }
    assert forall|k: Seq<char>| has_key(t, key, k) == (k != key(s[i]) && has_key(s, key, k)) by {
        if has_key(t, key, k) {
            let p = place_of(t, key, k);
            let q = if p < i { p } else { p + 1 };
            assert(t[p] == s[q]);
            if q < i {
                assert(key(s[q]) != key(s[i]));
            } else {
                assert(key(s[i]) != key(s[q]));
            }
        }
        if k != key(s[i]) && has_key(s, key, k) {
            let p = place_of(s, key, k);
            let q = if p < i { p } else { p - 1 };
            assert(t[q] == s[p]);
        }
    }
    assert forall|k: Seq<char>| has_key(t, key, k) implies #[trigger] as_map(t, key, val)[k]
        == as_map(s, key, val).remove(key(s[i]))[k] by {
        let p = place_of(t, key, k);
        lemma_place(t, key, val, p);
        let q = if p < i { p } else { p + 1 };
        assert(t[p] == s[q]);
        lemma_place(s, key, val, q);
    }
    assert(as_map(t, key, val) =~= as_map(s, key, val).remove(key(s[i])));
}

} // verus!

//! Association lists with text keys: a sequence of distinct keys beside a
//! sequence of values of the same length, read as a finite map.

use vstd::prelude::*;

verus! {

/// The text of each key, in order.
pub open spec fn texts(keys: Seq<String>) -> Seq<Seq<char>> {
    keys.map_values(|k: String| k@)
}

/// No key occurs twice.
pub open spec fn distinct_keys(keys: Seq<Seq<char>>) -> bool {
    forall|i: int, j: int|
        0 <= i < keys.len() && 0 <= j < keys.len() && i != j ==> keys[i] != keys[j]
}

/// Where `k` stands among `keys` (meaningful when it stands there).
pub open spec fn position_of(keys: Seq<Seq<char>>, k: Seq<char>) -> int {
    choose|i: int| 0 <= i < keys.len() && keys[i] == k
}

/// The map that sends each key to the value at its position.
pub open spec fn keyed_map<V>(keys: Seq<Seq<char>>, values: Seq<V>) -> Map<Seq<char>, V> {
    Map::new(|k: Seq<char>| keys.contains(k), |k: Seq<char>| values[position_of(keys, k)])
}

/// With distinct keys, a key is found exactly where it stands.
pub proof fn lemma_position_unique(keys: Seq<Seq<char>>, k: Seq<char>, i: int)
    requires
        distinct_keys(keys),
        0 <= i < keys.len(),
        keys[i] == k,
    ensures
        keys.contains(k),
        position_of(keys, k) == i,
{
    assert(keys.contains(k));
    let j = position_of(keys, k);
    assert(0 <= j < keys.len() && keys[j] == k);
}

/// The value at a position is what the map holds for the key there.
pub proof fn lemma_map_entry<V>(keys: Seq<Seq<char>>, values: Seq<V>, i: int)
    requires
        distinct_keys(keys),
        keys.len() == values.len(),
        0 <= i < keys.len(),
    ensures
        keyed_map(keys, values).contains_key(keys[i]),
        keyed_map(keys, values)[keys[i]] == values[i],
{
    lemma_position_unique(keys, keys[i], i);
}

/// Overwriting the value at a position is a map insert of its key.
pub proof fn lemma_map_update<V>(keys: Seq<Seq<char>>, values: Seq<V>, i: int, v: V)
    requires
        distinct_keys(keys),
        keys.len() == values.len(),
        0 <= i < keys.len(),
    ensures
        keyed_map(keys, values.update(i, v)) == keyed_map(keys, values).insert(keys[i], v),
{
    let before = keyed_map(keys, values);
    let after = keyed_map(keys, values.update(i, v));
    lemma_position_unique(keys, keys[i], i);
    assert forall|k: Seq<char>| #[trigger] after.contains_key(k) implies after[k] == before.insert(
        keys[i],
        v,
    )[k] by {
        let p = position_of(keys, k);
        assert(0 <= p < keys.len() && keys[p] == k);
        if k != keys[i] {
            assert(p != i);
        }
    }
    assert(after =~= before.insert(keys[i], v));
}

/// Appending a fresh key with its value keeps the keys distinct and is a
/// map insert of that key.
pub proof fn lemma_map_push<V>(keys: Seq<Seq<char>>, values: Seq<V>, k: Seq<char>, v: V)
    requires
        distinct_keys(keys),
        keys.len() == values.len(),
        !keys.contains(k),
    ensures
        distinct_keys(keys.push(k)),
        keyed_map(keys.push(k), values.push(v)) == keyed_map(keys, values).insert(k, v),
{
    let nk = keys.push(k);
    let nv = values.push(v);
    assert forall|i: int, j: int|
        0 <= i < nk.len() && 0 <= j < nk.len() && i != j implies nk[i] != nk[j] by {
        if i == keys.len() as int {
            assert(keys[j] == nk[j]);
        } else if j == keys.len() as int {
            assert(keys[i] == nk[i]);
        }
    }
    let before = keyed_map(keys, values);
    let after = keyed_map(nk, nv);
    lemma_position_unique(nk, k, keys.len() as int);
    assert forall|x: Seq<char>| after.contains_key(x) <==> before.insert(k, v).contains_key(x) by {
        if keys.contains(x) {
            let p = choose|p: int| 0 <= p < keys.len() && keys[p] == x;
            assert(nk[p] == x);
        }
        if nk.contains(x) && x != k {
            let p = choose|p: int| 0 <= p < nk.len() && nk[p] == x;
            assert(keys[p] == x);
        }
    }
    assert forall|x: Seq<char>| #[trigger] after.contains_key(x) implies after[x] == before.insert(
        k,
        v,
    )[x] by {
        if x != k {
            let p = position_of(keys, x);
            assert(0 <= p < keys.len() && keys[p] == x);
            assert(nk[p] == x);
            lemma_position_unique(nk, x, p);
        }
    }
    assert(after =~= before.insert(k, v));
}

/// The position of `key` among `keys`, if it is there.
pub fn find_key(keys: &Vec<String>, key: &String) -> (found: Option<usize>)
    ensures
        match found {
            Some(i) => i < keys.len() && keys@[i as int]@ == key@,
            None => !texts(keys@).contains(key@),
        },
{
    let mut i: usize = 0;
    while i < keys.len()
        invariant
            i <= keys.len(),
            forall|j: int| 0 <= j < i ==> keys@[j]@ != key@,
        decreases keys.len() - i,
    {
        if keys[i].eq(key) {
            return Some(i);
        }
        i = i + 1;
    }
    proof {
        if texts(keys@).contains(key@) {
            let j = choose|j: int| 0 <= j < texts(keys@).len() && texts(keys@)[j] == key@;
            assert(keys@[j]@ == key@);
        }
    }
    None
}

} // verus!

//! Finite maps kept as sequences of entries with distinct keys, in the order
//! in which their keys were first inserted.
use vstd::prelude::*;

verus! {

/// `m` with `key` bound to `v`: a present key keeps its place, a new key goes last.
pub open spec fn map_insert<V>(m: Seq<(Seq<char>, V)>, key: Seq<char>, v: V) -> Seq<(Seq<char>, V)> {
    if exists|i: int| 0 <= i < m.len() && m[i].0 == key {
        let i = choose|i: int| 0 <= i < m.len() && m[i].0 == key;
        m.update(i, (key, v))
    } else {
        m.push((key, v))
    }
}

/// Whether `key` is bound in `m`.
pub open spec fn has_key<V>(m: Seq<(Seq<char>, V)>, key: Seq<char>) -> bool {
    exists|i: int| 0 <= i < m.len() && m[i].0 == key
}

/// The value bound to `key` in `m`, if any.
pub open spec fn lookup<V>(m: Seq<(Seq<char>, V)>, key: Seq<char>) -> Option<V> {
    if has_key(m, key) {
        Some(m[choose|i: int| 0 <= i < m.len() && m[i].0 == key].1)
    } else {
        None
    }
}

/// The value at index `i` is what `lookup` gives for its key.
pub proof fn lemma_lookup_at<V>(m: Seq<(Seq<char>, V)>, i: int)
    requires
        distinct_keys(m),
        0 <= i < m.len(),
    ensures
        lookup(m, m[i].0) == Some(m[i].1),
{
    let k = m[i].0;
    assert(has_key(m, k));
    let j = choose|j: int| 0 <= j < m.len() && m[j].0 == k;
    assert(j == i);
}

/// The view of the entries of a map.
pub open spec fn pairs_view<V: View>(s: Seq<(String, V)>) -> Seq<(Seq<char>, V::V)> {
    Seq::new(s.len(), |i: int| (s[i].0@, s[i].1@))
}

/// No key occurs twice.
pub open spec fn distinct_keys<V>(m: Seq<(Seq<char>, V)>) -> bool {
    forall|i: int, j: int| 0 <= i < j < m.len() ==> m[i].0 != m[j].0
}

pub proof fn lemma_map_insert_distinct<V>(m: Seq<(Seq<char>, V)>, key: Seq<char>, v: V)
    requires
        distinct_keys(m),
    ensures
        distinct_keys(map_insert(m, key, v)),
        map_insert(m, key, v).len() >= m.len(),
{
}

pub proof fn lemma_map_insert_at<V>(m: Seq<(Seq<char>, V)>, key: Seq<char>, v: V, i: int)
    requires
        distinct_keys(m),
        0 <= i < m.len(),
        m[i].0 == key,
    ensures
        map_insert(m, key, v) == m.update(i, (key, v)),
{
    assert(exists|k: int| 0 <= k < m.len() && m[k].0 == key);
    let k = choose|k: int| 0 <= k < m.len() && m[k].0 == key;
    assert(k == i);
}

/// Binds `key` to `v` in `m`, keeping the place of a key already present.
pub fn map_insert_exec<V: View>(m: &mut Vec<(String, V)>, key: String, v: V)
    requires
        distinct_keys(pairs_view(old(m)@)),
    ensures
        pairs_view(final(m)@) == map_insert(pairs_view(old(m)@), key@, v@),
        distinct_keys(pairs_view(final(m)@)),
{
    let ghost old_m = pairs_view(m@);
    let mut i: usize = 0;
    while i < m.len()
        invariant
            i <= m@.len(),
            pairs_view(m@) == old_m,
            old_m == pairs_view(old(m)@),
            distinct_keys(old_m),
            forall|j: int| 0 <= j < i ==> old_m[j].0 != key@,
        decreases m.len() - i,
    {
        if m[i].0 == key {
            proof {
                lemma_map_insert_at(old_m, key@, v@, i as int);
            }
            let ghost kv = (key@, v@);
            m.set(i, (key, v));
            proof {
                assert(pairs_view(m@) =~= old_m.update(i as int, kv));
            }
            return;
        }
        i += 1;
    }
    m.push((key, v));
    proof {
        assert(pairs_view(m@) =~= old_m.push((key@, v@)));
    }
}


/// Inserting keeps the keys that were bound and binds the inserted key.
pub proof fn lemma_map_insert_keeps<V>(m: Seq<(Seq<char>, V)>, key: Seq<char>, v: V, k: Seq<char>)
    requires
        has_key(m, k) || k == key,
    ensures
        has_key(map_insert(m, key, v), k),
{
    let r = map_insert(m, key, v);
    if has_key(m, key) {
        let i = choose|i: int| 0 <= i < m.len() && m[i].0 == key;
        if k == key {
            assert(r[i].0 == k);
        } else {
            let j = choose|j: int| 0 <= j < m.len() && m[j].0 == k;
            assert(r[j].0 == k);
        }
    } else {
        if k == key {
            assert(r[m.len() as int].0 == k);
        } else {
            let j = choose|j: int| 0 <= j < m.len() && m[j].0 == k;
            assert(r[j].0 == k);
        }
    }
}

/// The index of the entry with key `key`, if any.
pub fn find_key<V>(m: &Vec<(String, V)>, key: &String) -> (r: Option<usize>)
    ensures
        r matches Some(i) ==> i < m@.len() && m@[i as int].0@ == key@
            && forall|j: int| 0 <= j < i ==> m@[j].0@ != key@,
        r is None ==> forall|i: int| 0 <= i < m@.len() ==> m@[i].0@ != key@,
{
    let mut i: usize = 0;
    while i < m.len()
        invariant
            i <= m@.len(),
            forall|j: int| 0 <= j < i ==> m@[j].0@ != key@,
        decreases m.len() - i,
    {
        if m[i].0 == *key {
            return Some(i);
        }
        i += 1;
    }
    None
}

} // verus!

//! Sequences of (key, value) pairs used as ordered maps: a key occurs at
//! most once, and entries keep the order in which they were added.
use vstd::prelude::*;

verus! {

/// No key occurs twice.
pub open spec fn unique_keys<V>(m: Seq<(Seq<char>, V)>) -> bool {
    forall|i: int, j: int|
        0 <= i < m.len() && 0 <= j < m.len() && i != j ==> (#[trigger] m[i]).0 != (#[trigger] m[j]).0
}

pub open spec fn has_key<V>(m: Seq<(Seq<char>, V)>, k: Seq<char>) -> bool {
    exists|i: int| 0 <= i < m.len() && (#[trigger] m[i]).0 == k
}

/// Where the key stands (meaningful when it is present).
pub open spec fn key_pos<V>(m: Seq<(Seq<char>, V)>, k: Seq<char>) -> int {
    choose|i: int| 0 <= i < m.len() && (#[trigger] m[i]).0 == k
}

/// In a map without repeated keys, the position of a key is the one it
/// stands at.
pub proof fn lemma_pos_unique<V>(m: Seq<(Seq<char>, V)>, k: Seq<char>, i: int)
    requires
        unique_keys(m),
        0 <= i < m.len(),
        m[i].0 == k,
    ensures
        has_key(m, k),
        key_pos(m, k) == i,
{
    assert(has_key(m, k));
    let j = key_pos(m, k);
    assert(m[j].0 == k);
}

/// Replacing an entry by one with the same key keeps the keys unique.
pub proof fn lemma_update_unique<V>(m: Seq<(Seq<char>, V)>, i: int, e: (Seq<char>, V))
    requires
        unique_keys(m),
        0 <= i < m.len(),
        e.0 == m[i].0,
    ensures
        unique_keys(m.update(i, e)),
{
    let n = m.update(i, e);
    assert forall|a: int, b: int| 0 <= a < n.len() && 0 <= b < n.len() && a != b implies n[a].0 != n[b].0 by {
        assert(n[a].0 == m[a].0);
        assert(n[b].0 == m[b].0);
    }
}

/// Adding an entry with a new key keeps the keys unique.
pub proof fn lemma_push_unique<V>(m: Seq<(Seq<char>, V)>, e: (Seq<char>, V))
    requires
        unique_keys(m),
        !has_key(m, e.0),
    ensures
        unique_keys(m.push(e)),
{
    let n = m.push(e);
    assert forall|a: int, b: int| 0 <= a < n.len() && 0 <= b < n.len() && a != b implies n[a].0 != n[b].0 by {
        if a < m.len() && b < m.len() {
            assert(n[a] == m[a]);
            assert(n[b] == m[b]);
        } else if a < m.len() {
            assert(n[a] == m[a]);
        } else {
            assert(n[b] == m[b]);
        }
    }
}

/// Removing an entry keeps the keys unique, and its key is then absent.
pub proof fn lemma_remove_unique<V>(m: Seq<(Seq<char>, V)>, i: int)
    requires
        unique_keys(m),
        0 <= i < m.len(),
    ensures
        unique_keys(m.remove(i)),
        !has_key(m.remove(i), m[i].0),
{
    let n = m.remove(i);
    assert forall|a: int, b: int| 0 <= a < n.len() && 0 <= b < n.len() && a != b implies n[a].0 != n[b].0 by {
        let a1 = if a < i { a } else { a + 1 };
        let b1 = if b < i { b } else { b + 1 };
        assert(n[a] == m[a1]);
        assert(n[b] == m[b1]);
    }
    if has_key(n, m[i].0) {
        let a = choose|a: int| 0 <= a < n.len() && (#[trigger] n[a]).0 == m[i].0;
        let a1 = if a < i { a } else { a + 1 };
        assert(n[a] == m[a1]);
    }
}


/// The first entry whose key is `k`, if any.
pub fn find_key<V>(v: &Vec<(String, V)>, k: &str) -> (r: Option<usize>)
    ensures
        match r {
            Some(i) => i < v@.len() && v@[i as int].0@ == k@ && forall|j: int|
                0 <= j < i ==> (#[trigger] v@[j]).0@ != k@,
            None => forall|j: int| 0 <= j < v@.len() ==> (#[trigger] v@[j]).0@ != k@,
        },
{
    let mut i: usize = 0;
    while i < v.len()
        invariant
            i <= v@.len(),
            forall|j: int| 0 <= j < i ==> (#[trigger] v@[j]).0@ != k@,
        decreases v.len() - i,
    {
        if crate::text::str_eq(v[i].0.as_str(), k) {
            return Some(i);
        }
        i += 1;
    }
    None
}

/// Filtering one more element of a sequence.
pub proof fn lemma_filter_take<A>(s: Seq<A>, p: spec_fn(A) -> bool, i: int)
    requires
        0 <= i < s.len(),
    ensures
        s.take(i + 1).filter(p) == (if p(s[i]) {
            s.take(i).filter(p).push(s[i])
        } else {
            s.take(i).filter(p)
        }),
{
    reveal(Seq::filter);
    assert(s.take(i + 1).drop_last() =~= s.take(i));
    assert(s.take(i + 1).last() == s[i]);
}

/// The value of the first entry whose key is `k`, if any.
pub open spec fn first_value<V>(m: Seq<(String, V)>, k: Seq<char>) -> Option<V> {
    if exists|i: int| 0 <= i < m.len() && (#[trigger] m[i]).0@ == k {
        let i = choose|i: int|
            0 <= i < m.len() && (#[trigger] m[i]).0@ == k && forall|j: int| 0 <= j < i ==> m[j].0@ != k;
        Some(m[i].1)
    } else {
        None
    }
}

/// The value of the first entry whose key is `k` (see `first_value`).
pub fn first_value_of<'a, V>(m: &'a Vec<(String, V)>, k: &str) -> (r: Option<&'a V>)
    ensures
        match r {
            Some(v) => first_value(m@, k@) == Some(*v),
            None => first_value(m@, k@) is None,
        },
{
    match find_key(m, k) {
        Some(i) => {
            proof {
                let w = choose|w: int|
                    0 <= w < m@.len() && (#[trigger] m@[w]).0@ == k@ && forall|j: int|
                        0 <= j < w ==> m@[j].0@ != k@;
                assert(0 <= i < m@.len() && m@[i as int].0@ == k@ && forall|j: int| 0 <= j < i ==> m@[j].0@ != k@);
                if w < i {
                    assert(m@[w].0@ != k@);
                } else if w > i {
                    assert(m@[i as int].0@ != k@);
                }
            }
            Some(&m[i].1)
        },
        None => None,
    }
}

/// Stores `v` under `k`: in place if `k` is present, at the end otherwise
/// (what inserting into a map does).
pub open spec fn put<V>(m: Seq<(Seq<char>, V)>, k: Seq<char>, v: V) -> Seq<(Seq<char>, V)> {
    if has_key(m, k) {
        m.update(key_pos(m, k), (k, v))
    } else {
        m.push((k, v))
    }
}

/// After `put`, the key is present with the value, and every key that was
/// present still is.
pub proof fn lemma_put_keys<V>(m: Seq<(Seq<char>, V)>, k: Seq<char>, v: V, other: Seq<char>)
    ensures
        has_key(put(m, k, v), k),
        has_key(m, other) ==> has_key(put(m, k, v), other),
{
    let n = put(m, k, v);
    if has_key(m, k) {
        let i = key_pos(m, k);
        assert(n[i].0 == k);
        if has_key(m, other) {
            let j = key_pos(m, other);
            if j == i {
                assert(n[i].0 == k);
                assert(m[j].0 == other);
            } else {
                assert(n[j] == m[j]);
            }
        }
    } else {
        assert(n[m.len() as int].0 == k);
        if has_key(m, other) {
            let j = key_pos(m, other);
            assert(n[j] == m[j]);
        }
    }
}

/// Each key after `put` is the key put or the key that stood at that place
/// before.
pub proof fn lemma_put_key_origin<V>(m: Seq<(Seq<char>, V)>, k: Seq<char>, v: V, p: int)
    requires
        0 <= p < put(m, k, v).len(),
    ensures
        put(m, k, v)[p].0 == k || (p < m.len() && put(m, k, v)[p].0 == m[p].0),
{
}

} // verus!

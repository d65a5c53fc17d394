//! Association lists as a model: a sequence of key-value pairs that is read
//! as a map when its keys are distinct.

use vstd::prelude::*;

verus! {

/// Some pair of `s` has the key `k`.
pub open spec fn has_key<K, V>(s: Seq<(K, V)>, k: K) -> bool {
    exists|i: int| 0 <= i < s.len() && (#[trigger] s[i]).0 == k
}

/// An index at which `s` holds the key `k`, where it holds it at all.
pub open spec fn position<K, V>(s: Seq<(K, V)>, k: K) -> int {
    choose|i: int| 0 <= i < s.len() && (#[trigger] s[i]).0 == k
}

/// No key stands in `s` twice.
pub open spec fn distinct_keys<K, V>(s: Seq<(K, V)>) -> bool {
    forall|i: int, j: int| 0 <= i < j < s.len() ==> (#[trigger] s[i]).0 != (#[trigger] s[j]).0
}

/// The map that `s` lists.
pub open spec fn as_map<K, V>(s: Seq<(K, V)>) -> Map<K, V> {
    Map::new(|k: K| has_key(s, k), |k: K| s[position(s, k)].1)
}

/// `s` with `k` bound to `v`: in place where `s` holds `k`, at the end
/// otherwise.
pub open spec fn upsert<K, V>(s: Seq<(K, V)>, k: K, v: V) -> Seq<(K, V)> {
    if has_key(s, k) {
        s.update(position(s, k), (k, v))
    } else {
        s.push((k, v))
    }
}

/// With distinct keys, the pair at index `i` is the one that its key finds.
pub proof fn lemma_found<K, V>(s: Seq<(K, V)>, i: int)
    requires
        distinct_keys(s),
        0 <= i < s.len(),
    ensures
        has_key(s, s[i].0),
        position(s, s[i].0) == i,
        as_map(s).contains_key(s[i].0),
        as_map(s)[s[i].0] == s[i].1,
{
    let k = s[i].0;
    assert(has_key(s, k));
    let p = position(s, k);
    if p < i {
        assert(s[p].0 != s[i].0);
    } else if i < p {
        assert(s[i].0 != s[p].0);
    }
}

/// The empty list is the empty map.
pub proof fn lemma_empty<K, V>()
    ensures
        distinct_keys(Seq::<(K, V)>::empty()),
        as_map(Seq::<(K, V)>::empty()) == Map::<K, V>::empty(),
{
    assert(as_map(Seq::<(K, V)>::empty()) =~= Map::<K, V>::empty());
}

/// Binding a key keeps the keys distinct and is the map's `insert`.
pub proof fn lemma_upsert<K, V>(s: Seq<(K, V)>, k: K, v: V)
    requires
        distinct_keys(s),
    ensures
        distinct_keys(upsert(s, k, v)),
        as_map(upsert(s, k, v)) == as_map(s).insert(k, v),
        upsert(s, k, v).len() == if has_key(s, k) {
            s.len()
        } else {
            s.len() + 1
        },
{
    let t = upsert(s, k, v);
    if has_key(s, k) {
        let p = position(s, k);
        assert forall|i: int, j: int| 0 <= i < j < t.len() implies (#[trigger] t[i]).0 != (
        #[trigger] t[j]).0 by {
            assert(t[i].0 == s[i].0);
            assert(t[j].0 == s[j].0);
        }
        assert forall|q: K| as_map(t).contains_key(q) == as_map(s).insert(k, v).contains_key(
            q,
        ) by {
            if has_key(t, q) {
                let i = position(t, q);
                assert(s[i].0 == t[i].0);
            }
            if has_key(s, q) {
                let i = position(s, q);
                assert(t[i].0 == s[i].0);
            }
            if q == k {
                assert(t[p].0 == k);
            }
        }
        assert forall|q: K| as_map(t).contains_key(q) implies as_map(t)[q] == as_map(s).insert(
            k,
            v,
        )[q] by {
            let i = position(t, q);
            lemma_found(t, i);
            if q != k {
                assert(s[i] == t[i]);
                lemma_found(s, i);
            } else {
                if i != p {
                    assert(t[p].0 == k);
                    if i < p {
                        assert(t[i].0 != t[p].0);
                    } else {
                        assert(t[p].0 != t[i].0);
                    }
                }
            }
        }
        assert(as_map(t) =~= as_map(s).insert(k, v));
    } else {
        assert forall|i: int, j: int| 0 <= i < j < t.len() implies (#[trigger] t[i]).0 != (
        #[trigger] t[j]).0 by {
            assert(t[i] == s[i]);
            if j < s.len() {
                assert(t[j] == s[j]);
            } else {
                assert(t[j].0 == k);
            }
        }
        assert forall|q: K| as_map(t).contains_key(q) == as_map(s).insert(k, v).contains_key(
            q,
        ) by {
            if has_key(t, q) {
                let i = position(t, q);
                if i < s.len() {
                    assert(s[i].0 == q);
                }
            }
            if has_key(s, q) {
                let i = position(s, q);
                assert(t[i].0 == q);
            }
            if q == k {
                assert(t[s.len() as int].0 == k);
            }
        }
        assert forall|q: K| as_map(t).contains_key(q) implies as_map(t)[q] == as_map(s).insert(
            k,
            v,
        )[q] by {
            let i = position(t, q);
            lemma_found(t, i);
            if q != k {
                assert(i < s.len());
                assert(s[i] == t[i]);
                lemma_found(s, i);
            } else {
                lemma_found(t, s.len() as int);
            }
        }
        assert(as_map(t) =~= as_map(s).insert(k, v));
    }
}

/// Dropping the pair at index `i` keeps the keys distinct and is the map's
/// `remove` of its key.
pub proof fn lemma_remove_at<K, V>(s: Seq<(K, V)>, i: int)
    requires
        distinct_keys(s),
        0 <= i < s.len(),
    ensures
        distinct_keys(s.remove(i)),
        as_map(s.remove(i)) == as_map(s).remove(s[i].0),
{
    let t = s.remove(i);
    let k = s[i].0;
    assert forall|a: int, b: int| 0 <= a < b < t.len() implies (#[trigger] t[a]).0 != (
    #[trigger] t[b]).0 by {
        let a2 = if a < i {
            a
        } else {
            a + 1
        };
        let b2 = if b < i {
            b
        } else {
            b + 1
        };
        assert(t[a] == s[a2]);
        assert(t[b] == s[b2]);
    }
    assert forall|q: K| as_map(t).contains_key(q) == as_map(s).remove(k).contains_key(q) by {
        if has_key(t, q) {
            let a = position(t, q);
            let a2 = if a < i {
                a
            } else {
                a + 1
            };
            assert(t[a] == s[a2]);
            assert(s[a2].0 == q);
            if q == k {
                if a2 < i {
                    assert(s[a2].0 != s[i].0);
                } else {
                    assert(s[i].0 != s[a2].0);
                }
            }
        }
        if has_key(s, q) && q != k {
            let a = position(s, q);
            let a2 = if a < i {
                a
            } else {
                a - 1
            };
            assert(t[a2] == s[a]);
        }
    }
    assert forall|q: K| as_map(t).contains_key(q) implies as_map(t)[q] == as_map(s).remove(k)[q] by {
        let a = position(t, q);
        lemma_found(t, a);
        let a2 = if a < i {
            a
        } else {
            a + 1
        };
        assert(t[a] == s[a2]);
        lemma_found(s, a2);
    }
    assert(as_map(t) =~= as_map(s).remove(k));
}

/// `m` after each pair of `pairs` is inserted, in order.
pub open spec fn inserted_all<K, V>(m: Map<K, V>, pairs: Seq<(K, V)>) -> Map<K, V>
    decreases pairs.len(),
{
    if pairs.len() == 0 {
        m
    } else {
        inserted_all(m, pairs.drop_last()).insert(pairs.last().0, pairs.last().1)
    }
}

/// Inserting the pairs of a list with distinct keys into the empty map
/// gives the map that the list lists.
pub proof fn lemma_inserted_all<K, V>(pairs: Seq<(K, V)>)
    requires
        distinct_keys(pairs),
    ensures
        inserted_all(Map::<K, V>::empty(), pairs) == as_map(pairs),
    decreases pairs.len(),
{
    if pairs.len() == 0 {
        assert(pairs =~= Seq::empty());
        lemma_empty::<K, V>();
    } else {
        let front = pairs.drop_last();
        let last = pairs.last();
        assert forall|i: int, j: int| 0 <= i < j < front.len() implies (#[trigger] front[i]).0 != (
        #[trigger] front[j]).0 by {
            assert(front[i] == pairs[i]);
            assert(front[j] == pairs[j]);
        }
        lemma_inserted_all(front);
        if has_key(front, last.0) {
            let i = position(front, last.0);
            assert(front[i] == pairs[i]);
            assert(pairs[i].0 != pairs[pairs.len() - 1].0);
        }
        lemma_upsert(front, last.0, last.1);
        assert(front.push(last) =~= pairs);
    }
}

} // verus!

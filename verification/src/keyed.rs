//! Ordered keyed sequences: a sequence whose elements carry strictly
//! increasing keys, viewed as a finite map from key to element.
use vstd::prelude::*;

verus! {

/// Something with an integer key.
pub trait Keyed {
    spec fn key(&self) -> int;
}

/// Keys strictly increase along the sequence.
pub open spec fn keys_increasing<T: Keyed>(s: Seq<T>) -> bool {
    forall|i: int, j: int| 0 <= i < j < s.len() ==> (#[trigger] s[i]).key() < (#[trigger] s[j]).key()
}

pub open spec fn has_key<T: Keyed>(s: Seq<T>, k: int) -> bool {
    exists|i: int| 0 <= i < s.len() && (#[trigger] s[i]).key() == k
}

pub open spec fn index_of_key<T: Keyed>(s: Seq<T>, k: int) -> int {
    choose|i: int| 0 <= i < s.len() && (#[trigger] s[i]).key() == k
}

/// The map from key to element.
pub open spec fn keyed_map<T: Keyed>(s: Seq<T>) -> Map<int, T> {
    Map::new(|k: int| has_key(s, k), |k: int| s[index_of_key(s, k)])
}

/// Position at which an element with key `k` belongs.
pub open spec fn insert_position<T: Keyed>(s: Seq<T>, k: int, p: int) -> bool {
    &&& 0 <= p <= s.len()
    &&& forall|i: int| 0 <= i < p ==> (#[trigger] s[i]).key() < k
    &&& forall|i: int| p <= i < s.len() ==> (#[trigger] s[i]).key() > k
}

pub proof fn lemma_keyed_index<T: Keyed>(s: Seq<T>, i: int)
    requires
        keys_increasing(s),
        0 <= i < s.len(),
    ensures
        keyed_map(s).contains_key(s[i].key()),
        keyed_map(s)[s[i].key()] == s[i],
        index_of_key(s, s[i].key()) == i,
{
    let k = s[i].key();
    assert(has_key(s, k));
    let j = index_of_key(s, k);
    if j < i {
        assert(s[j].key() < s[i].key());
    } else if j > i {
        assert(s[i].key() < s[j].key());
    }
}

pub proof fn lemma_keyed_absent<T: Keyed>(s: Seq<T>, k: int)
    requires
        forall|i: int| 0 <= i < s.len() ==> (#[trigger] s[i]).key() != k,
    ensures
        !keyed_map(s).contains_key(k),
{
}

/// Every key in the map comes from some position.
pub proof fn lemma_keyed_contains<T: Keyed>(s: Seq<T>, k: int)
    requires
        keys_increasing(s),
        keyed_map(s).contains_key(k),
    ensures
        0 <= index_of_key(s, k) < s.len(),
        s[index_of_key(s, k)].key() == k,
        keyed_map(s)[k] == s[index_of_key(s, k)],
{
}

/// Replacing an element by one with the same key.
pub proof fn lemma_keyed_update<T: Keyed>(s: Seq<T>, i: int, v: T)
    requires
        keys_increasing(s),
        0 <= i < s.len(),
        v.key() == s[i].key(),
    ensures
        keys_increasing(s.update(i, v)),
        keyed_map(s.update(i, v)) =~= keyed_map(s).insert(v.key(), v),
{
    let t = s.update(i, v);
    assert(keys_increasing(t)) by {
        assert forall|a: int, b: int| 0 <= a < b < t.len() implies (#[trigger] t[a]).key() < (#[trigger] t[b]).key() by {
            assert(s[a].key() < s[b].key());
        }
    }
    assert forall|k: int| #[trigger] keyed_map(t).contains_key(k) == keyed_map(s).insert(v.key(), v).contains_key(k) by {
        if has_key(s, k) {
            let j = index_of_key(s, k);
            assert(t[j].key() == k);
        }
        if has_key(t, k) {
            let j = index_of_key(t, k);
            assert(s[j].key() == k);
        }
    }
    assert forall|k: int| #[trigger] keyed_map(t).contains_key(k) implies keyed_map(t)[k] == keyed_map(s).insert(v.key(), v)[k] by {
        let j = index_of_key(t, k);
        lemma_keyed_index(t, j);
        if j != i {
            lemma_keyed_index(s, j);
        }
    }
}

/// Inserting an element at its ordered position.
pub proof fn lemma_keyed_insert<T: Keyed>(s: Seq<T>, p: int, v: T)
    requires
        keys_increasing(s),
        insert_position(s, v.key(), p),
    ensures
        keys_increasing(s.insert(p, v)),
        keyed_map(s.insert(p, v)) =~= keyed_map(s).insert(v.key(), v),
        !keyed_map(s).contains_key(v.key()),
{
    let t = s.insert(p, v);
    assert(keys_increasing(t)) by {
        assert forall|a: int, b: int| 0 <= a < b < t.len() implies (#[trigger] t[a]).key() < (#[trigger] t[b]).key() by {
            if a < p && b < p {
                assert(s[a].key() < s[b].key());
            } else if a < p && b == p {
            } else if a < p && b > p {
                assert(s[b - 1].key() > v.key());
            } else if a == p {
                assert(s[b - 1].key() > v.key());
            } else {
                assert(s[a - 1].key() < s[b - 1].key());
            }
        }
    }
    assert(!has_key(s, v.key())) by {
        if has_key(s, v.key()) {
            let j = index_of_key(s, v.key());
            if j < p {
                assert(s[j].key() < v.key());
            } else {
                assert(s[j].key() > v.key());
            }
        }
    }
    assert forall|k: int| #[trigger] keyed_map(t).contains_key(k) == keyed_map(s).insert(v.key(), v).contains_key(k) by {
        if has_key(s, k) {
            let j = index_of_key(s, k);
            if j < p {
                assert(t[j].key() == k);
            } else {
                assert(t[j + 1].key() == k);
            }
        }
        if has_key(t, k) {
            let j = index_of_key(t, k);
            if j < p {
                assert(s[j].key() == k);
            } else if j > p {
                assert(s[j - 1].key() == k);
            }
        }
        assert(t[p].key() == v.key());
    }
    assert forall|k: int| #[trigger] keyed_map(t).contains_key(k) implies keyed_map(t)[k] == keyed_map(s).insert(v.key(), v)[k] by {
        let j = index_of_key(t, k);
        lemma_keyed_index(t, j);
        if j < p {
            lemma_keyed_index(s, j);
        } else if j > p {
            lemma_keyed_index(s, j - 1);
        }
    }
}

/// Removing the element at a position.
pub proof fn lemma_keyed_remove<T: Keyed>(s: Seq<T>, i: int)
    requires
        keys_increasing(s),
        0 <= i < s.len(),
    ensures
        keys_increasing(s.remove(i)),
        keyed_map(s.remove(i)) =~= keyed_map(s).remove(s[i].key()),
{
    let t = s.remove(i);
    let k0 = s[i].key();
    assert(keys_increasing(t)) by {
        assert forall|a: int, b: int| 0 <= a < b < t.len() implies (#[trigger] t[a]).key() < (#[trigger] t[b]).key() by {
            if b < i {
                assert(s[a].key() < s[b].key());
            } else if a < i {
                assert(s[a].key() < s[b + 1].key());
            } else {
                assert(s[a + 1].key() < s[b + 1].key());
            }
        }
    }
    assert forall|k: int| #[trigger] keyed_map(t).contains_key(k) == keyed_map(s).remove(k0).contains_key(k) by {
        if has_key(s, k) && k != k0 {
            let j = index_of_key(s, k);
            if j < i {
                assert(t[j].key() == k);
            } else {
                assert(j != i);
                assert(t[j - 1].key() == k);
            }
        }
        if has_key(t, k) {
            let j = index_of_key(t, k);
            if j < i {
                assert(s[j].key() == k);
                assert(s[j].key() < s[i].key());
            } else {
                assert(s[j + 1].key() == k);
                assert(s[i].key() < s[j + 1].key());
            }
        }
    }
    assert forall|k: int| #[trigger] keyed_map(t).contains_key(k) implies keyed_map(t)[k] == keyed_map(s).remove(k0)[k] by {
        let j = index_of_key(t, k);
        lemma_keyed_index(t, j);
        if j < i {
            lemma_keyed_index(s, j);
        } else {
            lemma_keyed_index(s, j + 1);
        }
    }
}

pub open spec fn increasing(s: Seq<int>) -> bool {
    forall|i: int, j: int| 0 <= i < j < s.len() ==> #[trigger] s[i] < #[trigger] s[j]
}

/// The keys of a map in ascending order.
pub open spec fn sorted_keys<V>(m: Map<int, V>) -> Seq<int> {
    choose|s: Seq<int>| increasing(s) && (forall|k: int| #[trigger] s.contains(k) <==> m.dom().contains(k))
}

/// The keys of an ordered keyed sequence, in order.
pub open spec fn key_seq<T: Keyed>(s: Seq<T>) -> Seq<int> {
    s.map_values(|t: T| t.key())
}

/// Two increasing sequences with the same elements are equal.
pub proof fn lemma_increasing_unique(a: Seq<int>, b: Seq<int>)
    requires
        increasing(a),
        increasing(b),
        forall|k: int| #[trigger] a.contains(k) <==> b.contains(k),
    ensures
        a == b,
    decreases a.len(),
{
    if a.len() == 0 {
        if b.len() > 0 {
            assert(b.contains(b[0]));
            assert(a.contains(b[0]));
        }
        assert(a =~= b);
    } else {
        assert(a.contains(a[0]));
        assert(b.len() > 0);
        assert(b.contains(b[0]));
        assert(b.contains(a[0]));
        assert(a.contains(b[0]));
        let i = choose|i: int| 0 <= i < b.len() && b[i] == a[0];
        let j = choose|j: int| 0 <= j < a.len() && a[j] == b[0];
        if i > 0 {
            assert(b[0] < b[i]);
        }
        if j > 0 {
            assert(a[0] < a[j]);
        }
        assert(a[0] == b[0]);
        let a1 = a.drop_first();
        let b1 = b.drop_first();
        assert forall|k: int| #[trigger] a1.contains(k) <==> b1.contains(k) by {
            if a1.contains(k) {
                let p = choose|p: int| 0 <= p < a1.len() && a1[p] == k;
                assert(a[p + 1] == k);
                assert(a[0] < a[p + 1]);
                assert(a.contains(k));
                assert(b.contains(k));
                let q = choose|q: int| 0 <= q < b.len() && b[q] == k;
                assert(q != 0);
                assert(b1[q - 1] == k);
            }
            if b1.contains(k) {
                let p = choose|p: int| 0 <= p < b1.len() && b1[p] == k;
                assert(b[p + 1] == k);
                assert(b[0] < b[p + 1]);
                assert(b.contains(k));
                assert(a.contains(k));
                let q = choose|q: int| 0 <= q < a.len() && a[q] == k;
                assert(q != 0);
                assert(a1[q - 1] == k);
            }
        }
        lemma_increasing_unique(a1, b1);
        assert(a =~= b) by {
            assert forall|x: int| 0 <= x < a.len() implies a[x] == b[x] by {
                if x > 0 {
                    assert(a[x] == a1[x - 1]);
                    assert(b[x] == b1[x - 1]);
                }
            }
        }
    }
}

/// The keys of an ordered keyed sequence are the sorted keys of its map.
pub proof fn lemma_sorted_keys<T: Keyed>(s: Seq<T>)
    requires
        keys_increasing(s),
    ensures
        sorted_keys(keyed_map(s)) == key_seq(s),
        key_seq(s).len() == s.len(),
{
    let ks = key_seq(s);
    let m = keyed_map(s);
    assert(increasing(ks));
    assert forall|k: int| #[trigger] ks.contains(k) <==> m.dom().contains(k) by {
        if ks.contains(k) {
            let i = choose|i: int| 0 <= i < ks.len() && ks[i] == k;
            lemma_keyed_index(s, i);
        }
        if m.dom().contains(k) {
            let i = index_of_key(s, k);
            assert(ks[i] == k);
        }
    }
    let c = sorted_keys(m);
    assert(increasing(c) && (forall|k: int| #[trigger] c.contains(k) <==> m.dom().contains(k)));
    lemma_increasing_unique(c, ks);
}

/// An ordered keyed sequence is determined by its map.
pub proof fn lemma_keyed_determined<T: Keyed>(a: Seq<T>, b: Seq<T>)
    requires
        keys_increasing(a),
        keys_increasing(b),
        keyed_map(a) == keyed_map(b),
    ensures
        a == b,
{
    lemma_sorted_keys(a);
    lemma_sorted_keys(b);
    let ka = key_seq(a);
    let kb = key_seq(b);
    assert(ka == kb);
    assert forall|i: int| 0 <= i < a.len() implies a[i] == b[i] by {
        lemma_keyed_index(a, i);
        lemma_keyed_index(b, i);
        assert(ka[i] == a[i].key());
        assert(kb[i] == b[i].key());
    }
    assert(a =~= b);
}

} // verus!

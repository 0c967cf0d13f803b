use vstd::prelude::*;

verus! {

/// The keys of an association sequence, each taken by its view, name
/// pairwise distinct values.
pub open spec fn kv_keys_unique<K: View, V: View>(s: Seq<(K, V)>) -> bool {
    forall|i: int, j: int| #![trigger s[i], s[j]] 0 <= i < j < s.len() ==> s[i].0@ != s[j].0@
}

/// The mapping an association sequence stands for: each key's view is sent
/// to the view of the value stored beside it.
pub open spec fn kv_map_of<K: View, V: View>(s: Seq<(K, V)>) -> Map<K::V, V::V> {
    Map::new(
        |k: K::V| exists|i: int| 0 <= i < s.len() && s[i].0@ == k,
        |k: K::V|
            {
                let i = choose|i: int| 0 <= i < s.len() && s[i].0@ == k;
                s[i].1@
            },
    )
}

/// An entry of an association sequence with distinct keys is what the
/// mapping sends its key to.
pub proof fn lemma_kv_index<K: View, V: View>(s: Seq<(K, V)>, i: int)
    requires
        kv_keys_unique(s),
        0 <= i < s.len(),
    ensures
        kv_map_of(s).dom().contains(s[i].0@),
        kv_map_of(s)[s[i].0@] == s[i].1@,
{
    let k = s[i].0@;
    assert(0 <= i < s.len() && s[i].0@ == k);
    let j = choose|j: int| 0 <= j < s.len() && s[j].0@ == k;
    if j < i {
        assert(s[j].0@ != s[i].0@);
    } else if i < j {
        assert(s[i].0@ != s[j].0@);
    }
}

/// A key under which no entry stands is outside the mapping's domain.
pub proof fn lemma_kv_absent<K: View, V: View>(s: Seq<(K, V)>, k: K::V)
    requires
        forall|i: int| 0 <= i < s.len() ==> s[i].0@ != k,
    ensures
        !kv_map_of(s).dom().contains(k),
{
    if kv_map_of(s).dom().contains(k) {
        let i = choose|i: int| 0 <= i < s.len() && s[i].0@ == k;
        assert(false);
    }
}

/// Appending an entry under a fresh key inserts exactly that binding into
/// the mapping and keeps the keys distinct.
pub proof fn lemma_kv_push<K: View, V: View>(s: Seq<(K, V)>, e: (K, V))
    requires
        kv_keys_unique(s),
        forall|i: int| 0 <= i < s.len() ==> s[i].0@ != e.0@,
    ensures
        kv_keys_unique(s.push(e)),
        kv_map_of(s.push(e)) == kv_map_of(s).insert(e.0@, e.1@),
{
    let t = s.push(e);
    assert forall|i: int, j: int| #![trigger t[i], t[j]] 0 <= i < j < t.len() implies t[i].0@
        != t[j].0@ by {
        if j < s.len() {
            assert(t[i] == s[i] && t[j] == s[j]);
        } else {
            assert(t[j] == e && t[i] == s[i]);
        }
    }
    let m1 = kv_map_of(t);
    let m2 = kv_map_of(s).insert(e.0@, e.1@);
    assert forall|k: K::V| m1.dom().contains(k) implies m2.dom().contains(k) && m1[k] == m2[k] by {
        let i = choose|i: int| 0 <= i < t.len() && t[i].0@ == k;
        lemma_kv_index(t, i);
        if i < s.len() {
            assert(t[i] == s[i]);
            lemma_kv_index(s, i);
            assert(k != e.0@);
        } else {
            assert(t[i] == e);
        }
    }
    assert forall|k: K::V| m2.dom().contains(k) implies m1.dom().contains(k) by {
        if k == e.0@ {
            let n = s.len() as int;
            assert(t[n] == e);
            assert(0 <= n < t.len() && t[n].0@ == k);
        } else {
            let i = choose|i: int| 0 <= i < s.len() && s[i].0@ == k;
            assert(t[i] == s[i]);
            assert(0 <= i < t.len() && t[i].0@ == k);
        }
    }
    assert(m1 =~= m2);
}

/// Taking an entry out removes exactly its binding from the mapping and
/// keeps the keys distinct.
pub proof fn lemma_kv_remove<K: View, V: View>(s: Seq<(K, V)>, i: int)
    requires
        kv_keys_unique(s),
        0 <= i < s.len(),
    ensures
        kv_keys_unique(s.remove(i)),
        kv_map_of(s.remove(i)) == kv_map_of(s).remove(s[i].0@),
{
    let t = s.remove(i);
    assert forall|x: int, y: int| #![trigger t[x], t[y]] 0 <= x < y < t.len() implies t[x].0@
        != t[y].0@ by {
        let ox = if x < i {
            x
        } else {
            x + 1
        };
        let oy = if y < i {
            y
        } else {
            y + 1
        };
        assert(t[x] == s[ox] && t[y] == s[oy]);
        assert(s[ox].0@ != s[oy].0@);
    }
    let m1 = kv_map_of(t);
    let m2 = kv_map_of(s).remove(s[i].0@);
    assert forall|k: K::V| m1.dom().contains(k) implies m2.dom().contains(k) && m1[k] == m2[k] by {
        let x = choose|x: int| 0 <= x < t.len() && t[x].0@ == k;
        lemma_kv_index(t, x);
        let ox = if x < i {
            x
        } else {
            x + 1
        };
        assert(t[x] == s[ox]);
        lemma_kv_index(s, ox);
        if ox < i {
            assert(s[ox].0@ != s[i].0@);
        } else {
            assert(s[i].0@ != s[ox].0@);
        }
    }
    assert forall|k: K::V| m2.dom().contains(k) implies m1.dom().contains(k) by {
        let ox = choose|ox: int| 0 <= ox < s.len() && s[ox].0@ == k;
        if ox < i {
            assert(t[ox] == s[ox]);
            assert(0 <= ox < t.len() && t[ox].0@ == k);
        } else {
            assert(ox != i);
            assert(t[ox - 1] == s[ox]);
            assert(0 <= ox - 1 < t.len() && t[ox - 1].0@ == k);
        }
    }
    assert(m1 =~= m2);
}

} // verus!

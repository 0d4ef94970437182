//! Maps keyed by `usize`, held as vectors of pairs in strictly ascending key
//! order, so that walking them is walking the keys in order.

use vstd::prelude::*;

verus! {

/// Keys strictly ascend along `s`.
pub open spec fn keys_ascending<V>(s: Seq<(usize, V)>) -> bool {
    forall|i: int, j: int| 0 <= i < j < s.len() ==> s[i].0 < s[j].0
}

/// `k` is the key of some entry of `s`.
pub open spec fn has_key<V>(s: Seq<(usize, V)>, k: usize) -> bool {
    exists|i: int| 0 <= i < s.len() && s[i].0 == k
}

/// The map that the entries of `s` describe.
pub open spec fn keyed_map<V>(s: Seq<(usize, V)>) -> Map<usize, V> {
    Map::new(
        |k: usize| has_key(s, k),
        |k: usize| s[choose|i: int| 0 <= i < s.len() && s[i].0 == k].1,
    )
}

/// In ascending entries, the entry at `i` is what the map holds for its key.
pub proof fn lemma_keyed_at<V>(s: Seq<(usize, V)>, i: int)
    requires
        keys_ascending(s),
        0 <= i < s.len(),
    ensures
        keyed_map(s).contains_key(s[i].0),
        keyed_map(s)[s[i].0] == s[i].1,
{
    let k = s[i].0;
    assert(has_key(s, k));
    let j = choose|j: int| 0 <= j < s.len() && s[j].0 == k;
    if j < i {
        assert(s[j].0 < s[i].0);
    } else if i < j {
        assert(s[i].0 < s[j].0);
    }
}

/// Whether the keys of `v` strictly ascend.
pub fn ascending<V>(v: &Vec<(usize, V)>) -> (r: bool)
    ensures
        r == keys_ascending(v@),
{
    let mut j: usize = 1;
    while j < v.len()
        invariant
            1 <= j,
            forall|a: int, b: int| 0 <= a < b < j && b < v@.len() ==> v@[a].0 < v@[b].0,
        decreases v@.len() - j,
    {
        if v[j - 1].0 >= v[j].0 {
            return false;
        }
        assert forall|a: int, b: int| 0 <= a < b < j + 1 && b < v@.len() implies v@[a].0
            < v@[b].0 by {
            if b == j && a < j - 1 {
                assert(v@[a].0 < v@[j - 1].0);
            }
        }
        j = j + 1;
    }
    true
}

/// The index of the entry with key `k`, if there is one.
pub fn keyed_find<V>(v: &Vec<(usize, V)>, k: usize) -> (r: Option<usize>)
    requires
        keys_ascending(v@),
    ensures
        match r {
            Some(i) => i < v@.len() && v@[i as int].0 == k,
            None => !has_key(v@, k),
        },
        r is Some <==> keyed_map(v@).contains_key(k),
{
    let mut i: usize = 0;
    while i < v.len()
        invariant
            i <= v@.len(),
            forall|j: int| 0 <= j < i ==> v@[j].0 != k,
        decreases v@.len() - i,
    {
        if v[i].0 == k {
            return Some(i);
        }
        i = i + 1;
    }
    None
}

/// The first index whose key is at least `k`.
fn lower_bound<V>(v: &Vec<(usize, V)>, k: usize) -> (r: usize)
    requires
        keys_ascending(v@),
    ensures
        r <= v@.len(),
        forall|j: int| 0 <= j < r ==> v@[j].0 < k,
        r < v@.len() ==> v@[r as int].0 >= k,
{
    let mut i: usize = 0;
    while i < v.len()
        invariant
            i <= v@.len(),
            forall|j: int| 0 <= j < i ==> v@[j].0 < k,
        decreases v@.len() - i,
    {
        if v[i].0 >= k {
            return i;
        }
        i = i + 1;
    }
    i
}

/// Sets the entry for `k` to `x`, keeping the keys ascending.
pub fn keyed_insert<V>(v: &mut Vec<(usize, V)>, k: usize, x: V)
    requires
        keys_ascending(old(v)@),
    ensures
        keys_ascending(final(v)@),
        keyed_map(final(v)@) == keyed_map(old(v)@).insert(k, x),
{
    let ghost o = v@;
    let i = lower_bound(v, k);
    if i < v.len() && v[i].0 == k {
        v.set(i, (k, x));
        assert forall|a: int, b: int| 0 <= a < b < v@.len() implies v@[a].0 < v@[b].0 by {
            assert(o[a].0 < o[b].0);
        }
        assert forall|key: usize| #[trigger] has_key(v@, key) == has_key(o, key) by {
            if has_key(o, key) {
                let j = choose|j: int| 0 <= j < o.len() && o[j].0 == key;
                assert(v@[j].0 == key);
            }
            if has_key(v@, key) {
                let j = choose|j: int| 0 <= j < v@.len() && v@[j].0 == key;
                assert(o[j].0 == key);
            }
        }
        assert forall|key: usize| #[trigger] keyed_map(v@).contains_key(key) implies keyed_map(
            v@,
        )[key] == keyed_map(o).insert(k, x)[key] by {
            let j = choose|j: int| 0 <= j < v@.len() && v@[j].0 == key;
            lemma_keyed_at(v@, j);
            if j != i {
                lemma_keyed_at(o, j);
            }
        }
        assert(keyed_map(v@) =~= keyed_map(o).insert(k, x));
    } else {
        v.insert(i, (k, x));
        assert(v@ == o.insert(i as int, (k, x)));
        assert forall|a: int, b: int| 0 <= a < b < v@.len() implies v@[a].0 < v@[b].0 by {
            if b < i {
                assert(o[a].0 < o[b].0);
            } else if b == i {
            } else if a < i {
                assert(o[b - 1].0 >= k);
            } else if a == i {
                if i + 1 < b {
                    assert(o[i as int].0 < o[b - 1].0);
                }
            } else {
                assert(o[a - 1].0 < o[b - 1].0);
            }
        }
        assert forall|key: usize| #[trigger] has_key(v@, key) == (has_key(o, key) || key == k) by {
            if has_key(o, key) {
                let j = choose|j: int| 0 <= j < o.len() && o[j].0 == key;
                if j < i {
                    assert(v@[j].0 == key);
                } else {
                    assert(v@[j + 1].0 == key);
                }
            }
            if key == k {
                assert(v@[i as int].0 == key);
            }
            if has_key(v@, key) && key != k {
                let j = choose|j: int| 0 <= j < v@.len() && v@[j].0 == key;
                if j < i {
                    assert(o[j].0 == key);
                } else {
                    assert(o[j - 1].0 == key);
                }
            }
        }
        assert forall|key: usize| #[trigger] keyed_map(v@).contains_key(key) implies keyed_map(
            v@,
        )[key] == keyed_map(o).insert(k, x)[key] by {
            let j = choose|j: int| 0 <= j < v@.len() && v@[j].0 == key;
            lemma_keyed_at(v@, j);
            if j < i {
                lemma_keyed_at(o, j);
            } else if j > i {
                lemma_keyed_at(o, j - 1);
            }
        }
        assert(keyed_map(v@) =~= keyed_map(o).insert(k, x));
    }
}

/// Removes the entry for `k`, if any, keeping the keys ascending.
pub fn keyed_remove<V>(v: &mut Vec<(usize, V)>, k: usize)
    requires
        keys_ascending(old(v)@),
    ensures
        keys_ascending(final(v)@),
        keyed_map(final(v)@) == keyed_map(old(v)@).remove(k),
{
    let ghost o = v@;
    match keyed_find(v, k) {
        None => {
            assert(keyed_map(v@) =~= keyed_map(o).remove(k));
        },
        Some(i) => {
            let _ = v.remove(i);
            assert(v@ == o.remove(i as int));
            assert forall|a: int, b: int| 0 <= a < b < v@.len() implies v@[a].0 < v@[b].0 by {
                if b < i {
                    assert(o[a].0 < o[b].0);
                } else if a < i {
                    assert(o[a].0 < o[b + 1].0);
                } else {
                    assert(o[a + 1].0 < o[b + 1].0);
                }
            }
            assert forall|key: usize| #[trigger] has_key(v@, key) == (has_key(o, key) && key != k) by {
                if has_key(o, key) && key != k {
                    let j = choose|j: int| 0 <= j < o.len() && o[j].0 == key;
                    if j < i {
                        assert(v@[j].0 == key);
                    } else {
                        assert(v@[j - 1].0 == key);
                    }
                }
                if has_key(v@, key) {
                    let j = choose|j: int| 0 <= j < v@.len() && v@[j].0 == key;
                    if j < i {
                        assert(o[j].0 == key);
                        assert(o[j].0 < o[i as int].0);
                    } else {
                        assert(o[j + 1].0 == key);
                        assert(o[i as int].0 < o[j + 1].0);
                    }
                }
            }
            assert forall|key: usize| #[trigger] keyed_map(v@).contains_key(key) implies keyed_map(
                v@,
            )[key] == keyed_map(o).remove(k)[key] by {
                let j = choose|j: int| 0 <= j < v@.len() && v@[j].0 == key;
                lemma_keyed_at(v@, j);
                if j < i {
                    lemma_keyed_at(o, j);
                } else {
                    lemma_keyed_at(o, j + 1);
                }
            }
            assert(keyed_map(v@) =~= keyed_map(o).remove(k));
        },
    }
}

/// Dropping the last entry of ascending entries removes the greatest key.
pub proof fn lemma_keyed_drop_last<V>(s: Seq<(usize, V)>)
    requires
        keys_ascending(s),
        s.len() > 0,
    ensures
        keyed_map(s.drop_last()) == keyed_map(s).remove(s.last().0),
{
    let d = s.drop_last();
    assert(keys_ascending(d));
    assert forall|k: usize| #[trigger] has_key(d, k) == (has_key(s, k) && k != s.last().0) by {
        if has_key(d, k) {
            let j = choose|j: int| 0 <= j < d.len() && d[j].0 == k;
            assert(s[j].0 == k);
            assert(s[j].0 < s[s.len() - 1].0);
        }
        if has_key(s, k) && k != s.last().0 {
            let j = choose|j: int| 0 <= j < s.len() && s[j].0 == k;
            assert(j != s.len() - 1);
            assert(d[j].0 == k);
        }
    }
    assert forall|k: usize| #[trigger] keyed_map(d).contains_key(k) implies keyed_map(d)[k]
        == keyed_map(s).remove(s.last().0)[k] by {
        let j = choose|j: int| 0 <= j < d.len() && d[j].0 == k;
        lemma_keyed_at(d, j);
        lemma_keyed_at(s, j);
    }
    assert(keyed_map(d) =~= keyed_map(s).remove(s.last().0));
}

/// Ascending entries are fixed by the map they describe: two lists in
/// ascending key order that hold the same map are the same list.
pub proof fn lemma_ascending_unique<V>(s: Seq<(usize, V)>, t: Seq<(usize, V)>)
    requires
        keys_ascending(s),
        keys_ascending(t),
        keyed_map(s) == keyed_map(t),
    ensures
        s == t,
    decreases s.len(),
{
    if s.len() == 0 {
        if t.len() > 0 {
            lemma_keyed_at(t, 0);
        }
        assert(s =~= t);
    } else {
        lemma_keyed_at(s, s.len() - 1);
        if t.len() == 0 {
            assert(false);
        } else {
            lemma_keyed_at(t, t.len() - 1);
            let ks = s.last().0;
            let kt = t.last().0;
            let js = choose|j: int| 0 <= j < t.len() && t[j].0 == ks;
            if js < t.len() - 1 {
                assert(t[js].0 < t[t.len() - 1].0);
            }
            let jt = choose|j: int| 0 <= j < s.len() && s[j].0 == kt;
            if jt < s.len() - 1 {
                assert(s[jt].0 < s[s.len() - 1].0);
            }
            assert(ks == kt);
            assert(s.last() == t.last());
            lemma_keyed_drop_last(s);
            lemma_keyed_drop_last(t);
            lemma_ascending_unique(s.drop_last(), t.drop_last());
            assert(s =~= s.drop_last().push(s.last()));
            assert(t =~= t.drop_last().push(t.last()));
        }
    }
}

} // verus!

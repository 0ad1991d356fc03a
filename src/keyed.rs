use vstd::prelude::*;

verus! {

/// The map described by a sequence of (key, value) pairs: a later pair
/// overwrites an earlier one with the same key.
pub open spec fn map_of<K, V>(s: Seq<(K, V)>) -> Map<K, V>
    decreases s.len(),
{
    if s.len() == 0 {
        Map::empty()
    } else {
        map_of(s.drop_last()).insert(s.last().0, s.last().1)
    }
}

/// Whether no two pairs of `s` share a key.
pub open spec fn distinct_keys<K, V>(s: Seq<(K, V)>) -> bool {
    forall|i: int, j: int| 0 <= i < j < s.len() ==> s[i].0 != s[j].0
}

pub proof fn lemma_map_of_keys<K, V>(s: Seq<(K, V)>, k: K)
    ensures
        map_of(s).dom().finite(),
        map_of(s).contains_key(k) <==> exists|i: int| 0 <= i < s.len() && s[i].0 == k,
    decreases s.len(),
{
    if s.len() > 0 {
        let p = s.drop_last();
        lemma_map_of_keys(p, k);
        if map_of(p).contains_key(k) {
            let i = choose|i: int| 0 <= i < p.len() && p[i].0 == k;
            assert(s[i].0 == k);
        }
        if exists|i: int| 0 <= i < s.len() && s[i].0 == k {
            let i = choose|i: int| 0 <= i < s.len() && s[i].0 == k;
            if i < s.len() - 1 {
                assert(p[i].0 == k);
            }
        }
    }
}

pub proof fn lemma_map_of_value<K, V>(s: Seq<(K, V)>, i: int)
    requires
        distinct_keys(s),
        0 <= i < s.len(),
    ensures
        map_of(s).contains_key(s[i].0),
        map_of(s)[s[i].0] == s[i].1,
    decreases s.len(),
{
    if i < s.len() - 1 {
        let p = s.drop_last();
        assert(p[i] == s[i]);
        lemma_map_of_value(p, i);
    }
}

pub proof fn lemma_map_of_len<K, V>(s: Seq<(K, V)>)
    requires
        distinct_keys(s),
    ensures
        map_of(s).dom().len() == s.len(),
    decreases s.len(),
{
    if s.len() > 0 {
        let p = s.drop_last();
        lemma_map_of_len(p);
        lemma_map_of_keys(p, s.last().0);
        if map_of(p).contains_key(s.last().0) {
            let i = choose|i: int| 0 <= i < p.len() && p[i].0 == s.last().0;
            assert(s[i].0 == s[s.len() - 1].0);
        }
    }
}

pub proof fn lemma_map_of_update<K, V>(s: Seq<(K, V)>, i: int, v: V)
    requires
        distinct_keys(s),
        0 <= i < s.len(),
    ensures
        distinct_keys(s.update(i, (s[i].0, v))),
        map_of(s.update(i, (s[i].0, v))) == map_of(s).insert(s[i].0, v),
{
    let k = s[i].0;
    let t = s.update(i, (k, v));
    assert(distinct_keys(t));
    lemma_map_of_value(t, i);
    assert forall|key: K| #[trigger] map_of(t).contains_key(key) <==> map_of(s).insert(
        k,
        v,
    ).contains_key(key) by {
        lemma_map_of_keys(t, key);
        lemma_map_of_keys(s, key);
        if exists|j: int| 0 <= j < s.len() && s[j].0 == key {
            let j = choose|j: int| 0 <= j < s.len() && s[j].0 == key;
            assert(t[j].0 == key);
        }
        if exists|j: int| 0 <= j < t.len() && t[j].0 == key {
            let j = choose|j: int| 0 <= j < t.len() && t[j].0 == key;
            assert(s[j].0 == key);
        }
    }
    assert forall|key: K| #[trigger] map_of(t).contains_key(key) implies map_of(t)[key]
        == map_of(s).insert(k, v)[key] by {
        if key != k {
            lemma_map_of_keys(t, key);
            let j = choose|j: int| 0 <= j < t.len() && t[j].0 == key;
            lemma_map_of_value(t, j);
            lemma_map_of_value(s, j);
        }
    }
    assert(map_of(t) =~= map_of(s).insert(k, v));
}

pub proof fn lemma_map_of_remove<K, V>(s: Seq<(K, V)>, i: int)
    requires
        distinct_keys(s),
        0 <= i < s.len(),
    ensures
        distinct_keys(s.remove(i)),
        map_of(s.remove(i)) == map_of(s).remove(s[i].0),
{
    let k = s[i].0;
    let t = s.remove(i);
    assert forall|a: int, b: int| 0 <= a < b < t.len() implies t[a].0 != t[b].0 by {
        let a2 = if a < i { a } else { a + 1 };
        let b2 = if b < i { b } else { b + 1 };
        assert(t[a] == s[a2] && t[b] == s[b2]);
    }
    assert forall|key: K| #[trigger] map_of(t).contains_key(key) <==> map_of(s).remove(
        k,
    ).contains_key(key) by {
        lemma_map_of_keys(t, key);
        lemma_map_of_keys(s, key);
        if exists|j: int| 0 <= j < s.len() && s[j].0 == key {
            let j = choose|j: int| 0 <= j < s.len() && s[j].0 == key;
            if key != k {
                if j < i {
                    assert(t[j].0 == key);
                } else {
                    assert(t[j - 1].0 == key);
                }
            }
        }
        if exists|j: int| 0 <= j < t.len() && t[j].0 == key {
            let j = choose|j: int| 0 <= j < t.len() && t[j].0 == key;
            if j < i {
                assert(s[j].0 == key);
            } else {
                assert(s[j + 1].0 == key);
            }
        }
    }
    assert forall|key: K| #[trigger] map_of(t).contains_key(key) implies map_of(t)[key]
        == map_of(s)[key] by {
        lemma_map_of_keys(t, key);
        let j = choose|j: int| 0 <= j < t.len() && t[j].0 == key;
        lemma_map_of_value(t, j);
        if j < i {
            lemma_map_of_value(s, j);
        } else {
            assert(t[j] == s[j + 1]);
            lemma_map_of_value(s, j + 1);
        }
    }
    assert(map_of(t) =~= map_of(s).remove(k));
}

} // verus!

use vstd::prelude::*;

verus! {

/// No key occurs twice among the pairs.
pub open spec fn keys_unique<K, V>(s: Seq<(K, V)>) -> bool {
    forall|i: int, j: int| 0 <= i < s.len() && 0 <= j < s.len() && i != j ==> s[i].0 != s[j].0
}

pub open spec fn has_key<K, V>(s: Seq<(K, V)>, k: K) -> bool {
    exists|i: int| 0 <= i < s.len() && s[i].0 == k
}

/// The map that a list of pairs with unique keys stands for.
pub open spec fn pairs_map<K, V>(s: Seq<(K, V)>) -> Map<K, V> {
    Map::new(|k: K| has_key(s, k), |k: K| s[choose|i: int| 0 <= i < s.len() && s[i].0 == k].1)
}

pub proof fn lemma_pairs_map_at<K, V>(s: Seq<(K, V)>, i: int)
    requires
        keys_unique(s),
        0 <= i < s.len(),
    ensures
        pairs_map(s).contains_key(s[i].0),
        pairs_map(s)[s[i].0] == s[i].1,
{
    assert(has_key(s, s[i].0));
    let k = choose|k: int| 0 <= k < s.len() && s[k].0 == s[i].0;
    assert(k == i);
}

pub proof fn lemma_pairs_map_push<K, V>(s: Seq<(K, V)>, e: (K, V))
    requires
        keys_unique(s),
        !has_key(s, e.0),
    ensures
        keys_unique(s.push(e)),
        pairs_map(s.push(e)) == pairs_map(s).insert(e.0, e.1),
{
    let t = s.push(e);
    assert(t[s.len() as int] == e);
    assert(keys_unique(t));
    assert forall|k: K| has_key(t, k) <==> (has_key(s, k) || k == e.0) by {
        if has_key(t, k) {
            let j = choose|j: int| 0 <= j < t.len() && t[j].0 == k;
            if j < s.len() {
                assert(s[j].0 == k);
            }
        }
        if has_key(s, k) {
            let j = choose|j: int| 0 <= j < s.len() && s[j].0 == k;
            assert(t[j].0 == k);
        }
    }
    assert forall|k: K| #[trigger] has_key(s, k) implies pairs_map(t)[k] == pairs_map(s)[k] by {
        let j = choose|j: int| 0 <= j < s.len() && s[j].0 == k;
        lemma_pairs_map_at(t, j);
        lemma_pairs_map_at(s, j);
    }
    lemma_pairs_map_at(t, s.len() as int);
    assert(pairs_map(t) =~= pairs_map(s).insert(e.0, e.1));
}

pub proof fn lemma_pairs_map_update<K, V>(s: Seq<(K, V)>, i: int, v: V)
    requires
        keys_unique(s),
        0 <= i < s.len(),
    ensures
        keys_unique(s.update(i, (s[i].0, v))),
        pairs_map(s.update(i, (s[i].0, v))) == pairs_map(s).insert(s[i].0, v),
{
    let t = s.update(i, (s[i].0, v));
    assert(keys_unique(t));
    assert forall|k: K| has_key(t, k) <==> has_key(s, k) by {
        if has_key(t, k) {
            let j = choose|j: int| 0 <= j < t.len() && t[j].0 == k;
            assert(s[j].0 == k);
        }
        if has_key(s, k) {
            let j = choose|j: int| 0 <= j < s.len() && s[j].0 == k;
            assert(t[j].0 == k);
        }
    }
    assert forall|k: K| #[trigger] has_key(t, k) && k != s[i].0 implies pairs_map(t)[k]
        == pairs_map(s)[k] by {
        let j = choose|j: int| 0 <= j < t.len() && t[j].0 == k;
        lemma_pairs_map_at(t, j);
        lemma_pairs_map_at(s, j);
    }
    lemma_pairs_map_at(t, i);
    assert(pairs_map(t) =~= pairs_map(s).insert(s[i].0, v));
}

} // verus!

//! Association lists with distinct keys, viewed as finite maps.
//!
//! Both the typed attribute store of a session record and the session
//! table itself keep their entries as a vector of key-value pairs whose
//! keys never repeat.  This module gives that representation its map
//! model and the lemmas that relate list edits to map operations.

use vstd::prelude::*;

verus! {

/// The map an association list denotes: a key is present when some entry
/// carries it, and maps to that entry's value's view.
pub open spec fn assoc_map<K, V: View>(s: Seq<(K, V)>) -> Map<K, V::V> {
    Map::new(
        |k: K| exists|i: int| 0 <= i < s.len() && s[i].0 == k,
        |k: K| s[choose|i: int| 0 <= i < s.len() && s[i].0 == k].1@,
    )
}

/// No two entries of the list share a key.
pub open spec fn distinct_keys<K, V>(s: Seq<(K, V)>) -> bool {
    forall|i: int, j: int| 0 <= i < j < s.len() ==> (#[trigger] s[i]).0 != (#[trigger] s[j]).0
}

/// With distinct keys, the entry at any index is what the map yields for
/// that entry's key.
pub proof fn lemma_assoc_map_at<K, V: View>(s: Seq<(K, V)>, i: int)
    requires
        distinct_keys(s),
        0 <= i < s.len(),
    ensures
        assoc_map(s).dom().contains(s[i].0),
        assoc_map(s)[s[i].0] == s[i].1@,
{
    let k = s[i].0;
    assert(0 <= i < s.len() && s[i].0 == k);
    let j = choose|j: int| 0 <= j < s.len() && s[j].0 == k;
    assert(j == i);
}

/// A key no entry carries is outside the map's domain.
pub proof fn lemma_assoc_map_absent<K, V: View>(s: Seq<(K, V)>, k: K)
    requires
        forall|i: int| 0 <= i < s.len() ==> (#[trigger] s[i]).0 != k,
    ensures
        !assoc_map(s).dom().contains(k),
{
}

/// Overwriting the one entry that carries `key` denotes insertion into
/// the map.
pub proof fn lemma_assoc_update<K, V: View>(olds: Seq<(K, V)>, news: Seq<(K, V)>, i: int, key: K)
    requires
        distinct_keys(olds),
        distinct_keys(news),
        news.len() == olds.len(),
        0 <= i < olds.len(),
        olds[i].0 == key,
        news[i].0 == key,
        forall|j: int| 0 <= j < olds.len() && j != i ==> olds[j] == news[j],
    ensures
        assoc_map(news) == assoc_map(olds).insert(key, news[i].1@),
{
    let mnew = assoc_map(news);
    let mexp = assoc_map(olds).insert(key, news[i].1@);
    assert forall|k: K| mnew.dom().contains(k) <==> mexp.dom().contains(k) by {
        if k == key {
            assert(0 <= i < news.len() && news[i].0 == k);
        } else {
            if exists|j: int| 0 <= j < news.len() && news[j].0 == k {
                let j = choose|j: int| 0 <= j < news.len() && news[j].0 == k;
                assert(olds[j].0 == k);
            }
            if exists|j: int| 0 <= j < olds.len() && olds[j].0 == k {
                let j = choose|j: int| 0 <= j < olds.len() && olds[j].0 == k;
                assert(news[j].0 == k);
            }
        }
    }
    assert forall|k: K| mexp.dom().contains(k) implies mnew[k] == mexp[k] by {
        if k == key {
            lemma_assoc_map_at(news, i);
        } else {
            let j = choose|j: int| 0 <= j < olds.len() && olds[j].0 == k;
            assert(j != i);
            lemma_assoc_map_at(olds, j);
            lemma_assoc_map_at(news, j);
        }
    }
    assert(mnew =~= mexp);
}

/// Appending an entry with an unused key denotes insertion into the map.
pub proof fn lemma_assoc_push<K, V: View>(olds: Seq<(K, V)>, news: Seq<(K, V)>, key: K)
    requires
        distinct_keys(olds),
        distinct_keys(news),
        news.len() == olds.len() + 1,
        news.last().0 == key,
        forall|j: int| 0 <= j < olds.len() ==> olds[j] == news[j],
        forall|j: int| 0 <= j < olds.len() ==> (#[trigger] olds[j]).0 != key,
    ensures
        assoc_map(news) == assoc_map(olds).insert(key, news.last().1@),
{
    let mnew = assoc_map(news);
    let mexp = assoc_map(olds).insert(key, news.last().1@);
    assert forall|k: K| mnew.dom().contains(k) <==> mexp.dom().contains(k) by {
        if k == key {
            assert(news[news.len() - 1].0 == k);
        } else {
            if exists|j: int| 0 <= j < news.len() && news[j].0 == k {
                let j = choose|j: int| 0 <= j < news.len() && news[j].0 == k;
                assert(j < olds.len());
                assert(olds[j].0 == k);
            }
            if exists|j: int| 0 <= j < olds.len() && olds[j].0 == k {
                let j = choose|j: int| 0 <= j < olds.len() && olds[j].0 == k;
                assert(news[j].0 == k);
            }
        }
    }
    assert forall|k: K| mexp.dom().contains(k) implies mnew[k] == mexp[k] by {
        if k == key {
            lemma_assoc_map_at(news, news.len() - 1);
        } else {
            let j = choose|j: int| 0 <= j < olds.len() && olds[j].0 == k;
            lemma_assoc_map_at(olds, j);
            lemma_assoc_map_at(news, j);
        }
    }
    assert(mnew =~= mexp);
}

} // verus!

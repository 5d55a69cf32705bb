//! Lists of entries keyed by text, read as maps from each key to the value of
//! its first entry.

use vstd::prelude::*;

verus! {

/// Some entry of `s` has key `k`.
pub open spec fn has_key<V>(s: Seq<(Seq<char>, V)>, k: Seq<char>) -> bool {
    exists|i: int| 0 <= i < s.len() && s[i].0 == k
}

/// `i` is the first entry of `s` with key `k`.
pub open spec fn is_first_key<V>(s: Seq<(Seq<char>, V)>, k: Seq<char>, i: int) -> bool {
    0 <= i < s.len() && s[i].0 == k && forall|j: int| 0 <= j < i ==> s[j].0 != k
}

/// The entries read as a map: each key to the value of its first entry.
pub open spec fn entries_map<V>(s: Seq<(Seq<char>, V)>) -> Map<Seq<char>, V> {
    Map::new(
        |k: Seq<char>| has_key(s, k),
        |k: Seq<char>| s[choose|i: int| is_first_key(s, k, i)].1,
    )
}

/// The first entry with a key is the one that `entries_map` reads.
pub proof fn lemma_first_key<V>(s: Seq<(Seq<char>, V)>, k: Seq<char>, i: int)
    requires
        is_first_key(s, k, i),
    ensures
        (choose|j: int| is_first_key(s, k, j)) == i,
{
    let w = choose|j: int| is_first_key(s, k, j);
    assert(is_first_key(s, k, w));
    if w < i {
        assert(s[w].0 != k);
    } else if w > i {
        assert(s[i].0 != k);
    }
}

/// A key that occurs has a first entry.
pub proof fn lemma_exists_first_key<V>(s: Seq<(Seq<char>, V)>, k: Seq<char>)
    requires
        has_key(s, k),
    ensures
        exists|j: int| is_first_key(s, k, j),
    decreases s.len(),
{
    if s[0].0 == k {
        assert(is_first_key(s, k, 0));
    } else {
        let t = s.drop_first();
        let w = choose|i: int| 0 <= i < s.len() && s[i].0 == k;
        assert(t[w - 1].0 == k);
        lemma_exists_first_key(t, k);
        let j = choose|j: int| is_first_key(t, k, j);
        assert forall|x: int| 0 <= x < j + 1 implies s[x].0 != k by {
            if x > 0 {
                assert(s[x] == t[x - 1]);
            }
        }
        assert(is_first_key(s, k, j + 1));
    }
}

/// Appending an entry whose key is new adds exactly that key to the map.
pub proof fn lemma_push_new_key<V>(s: Seq<(Seq<char>, V)>, k: Seq<char>, v: V)
    requires
        !has_key(s, k),
    ensures
        entries_map(s.push((k, v))) == entries_map(s).insert(k, v),
{
    let ne = s.push((k, v));
    assert forall|key: Seq<char>| #[trigger]
        entries_map(ne).contains_key(key) == entries_map(s).insert(k, v).contains_key(key) by {
        if key != k && has_key(s, key) {
            let w = choose|j: int| 0 <= j < s.len() && s[j].0 == key;
            assert(ne[w].0 == key);
        }
        if key != k && has_key(ne, key) {
            let w = choose|j: int| 0 <= j < ne.len() && ne[j].0 == key;
            assert(s[w].0 == key);
        }
        if key == k {
            assert(ne[s.len() as int].0 == key);
        }
    }
    assert forall|key: Seq<char>| #[trigger] entries_map(ne).contains_key(key) implies entries_map(
        ne,
    )[key] == entries_map(s).insert(k, v)[key] by {
        if key == k {
            assert forall|j: int| 0 <= j < s.len() implies ne[j].0 != k by {
                assert(ne[j] == s[j]);
            }
            lemma_first_key(ne, k, s.len() as int);
        } else {
            lemma_exists_first_key(s, key);
            let w = choose|j: int| is_first_key(s, key, j);
            assert(is_first_key(ne, key, w));
            lemma_first_key(ne, key, w);
        }
    }
    assert(entries_map(ne) =~= entries_map(s).insert(k, v));
}

} // verus!

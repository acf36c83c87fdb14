//! Association lists keyed by strings, and their mathematical map model.
//!
//! Updates, the token catalog and the state store all hold their entries as
//! vectors of key/value pairs with pairwise-distinct keys; their contracts
//! speak about the finite map such a vector denotes.

use vstd::map::*;
use vstd::prelude::*;

verus! {

/// The keys of a pair sequence, in order.
pub open spec fn keys<V>(s: Seq<(Seq<char>, V)>) -> Seq<Seq<char>> {
    s.map_values(|p: (Seq<char>, V)| p.0)
}

/// No two pairs share a key.
pub open spec fn unique_keys<V>(s: Seq<(Seq<char>, V)>) -> bool {
    forall|i: int, j: int| 0 <= i < j < s.len() ==> (#[trigger] s[i]).0 != (#[trigger] s[j]).0
}

/// The finite map a pair sequence denotes (later pairs win, which is
/// irrelevant under `unique_keys`).
pub open spec fn to_map<V>(s: Seq<(Seq<char>, V)>) -> Map<Seq<char>, V>
    decreases s.len(),
{
    if s.len() == 0 {
        Map::empty()
    } else {
        to_map(s.drop_last()).insert(s.last().0, s.last().1)
    }
}

/// Appending a pair inserts its key.
pub proof fn lemma_to_map_push<V>(s: Seq<(Seq<char>, V)>, p: (Seq<char>, V))
    ensures
        to_map(s.push(p)) == to_map(s).insert(p.0, p.1),
{
    assert(s.push(p).drop_last() =~= s);
}

/// A key is in the map exactly when some pair carries it.
pub proof fn lemma_to_map_domain<V>(s: Seq<(Seq<char>, V)>, k: Seq<char>)
    ensures
        to_map(s).contains_key(k) <==> exists|i: int| 0 <= i < s.len() && (#[trigger] s[i]).0 == k,
    decreases s.len(),
{
    if s.len() > 0 {
        lemma_to_map_domain(s.drop_last(), k);
        if s.last().0 == k {
            assert((#[trigger] s[s.len() - 1]).0 == k);
        } else if to_map(s).contains_key(k) {
            let i = choose|i: int| 0 <= i < s.len() - 1 && (#[trigger] s.drop_last()[i]).0 == k;
            assert((#[trigger] s[i]).0 == k);
        } else {
            assert forall|i: int| 0 <= i < s.len() && (#[trigger] s[i]).0 == k implies false by {
                if i < s.len() - 1 {
                    assert((#[trigger] s.drop_last()[i]).0 == k);
                }
            }
        }
    }
}

/// Under unique keys, the map sends each pair's key to that pair's value.
pub proof fn lemma_to_map_index<V>(s: Seq<(Seq<char>, V)>, i: int)
    requires
        unique_keys(s),
        0 <= i < s.len(),
    ensures
        to_map(s).contains_key(s[i].0),
        to_map(s)[s[i].0] == s[i].1,
    decreases s.len(),
{
    if i == s.len() - 1 {
    } else {
        assert(unique_keys(s.drop_last())) by {
            assert forall|a: int, b: int|
                0 <= a < b < s.drop_last().len() implies (#[trigger] s.drop_last()[a]).0 != (
            #[trigger] s.drop_last()[b]).0 by {
                assert(s[a] == s.drop_last()[a]);
                assert(s[b] == s.drop_last()[b]);
            }
        }
        assert(s.drop_last()[i] == s[i]);
        lemma_to_map_index(s.drop_last(), i);
        assert(s[i].0 != s.last().0);
    }
}

/// A pair sequence with unique keys denotes exactly the map that agrees with
/// it pairwise and has no further keys.
pub proof fn lemma_to_map_eq<V>(s: Seq<(Seq<char>, V)>, m: Map<Seq<char>, V>)
    requires
        unique_keys(s),
        forall|i: int|
            0 <= i < s.len() ==> m.contains_key((#[trigger] s[i]).0) && s[i].1 == m[s[i].0],
        forall|k: Seq<char>|
            m.contains_key(k) ==> exists|i: int| 0 <= i < s.len() && (#[trigger] s[i]).0 == k,
    ensures
        to_map(s) == m,
{
    assert_maps_equal!(to_map(s), m, k => {
        lemma_to_map_domain(s, k);
        if to_map(s).contains_key(k) || m.contains_key(k) {
            let i = choose|i: int| 0 <= i < s.len() && (#[trigger] s[i]).0 == k;
            lemma_to_map_index(s, i);
        }
    });
}

/// Finds the position of a key in an association vector.
pub fn find_index<V>(v: &Vec<(String, V)>, key: &String) -> (r: Option<usize>)
    ensures
        match r {
            Some(i) => i < v@.len() && v@[i as int].0@ == key@,
            None => forall|i: int| 0 <= i < v@.len() ==> (#[trigger] v@[i]).0@ != key@,
        },
{
    let n = v.len();
    let mut i: usize = 0;
    while i < n
        invariant
            i <= n,
            n == v@.len(),
            forall|j: int| 0 <= j < i ==> (#[trigger] v@[j]).0@ != key@,
        decreases n - i,
    {
        if v[i].0.eq(key) {
            return Some(i);
        }
        i += 1;
    }
    None
}

} // verus!

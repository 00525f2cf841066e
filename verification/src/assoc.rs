//! Association lists: the engine keeps every mapping as a `Vec` of
//! key/value pairs with pairwise-distinct keys, so that contracts can speak
//! about both the mapping and the order in which it was built.

use vstd::prelude::*;

use crate::model::PlayerId;

verus! {

/// The keys of an association list, in order.
pub open spec fn alist_keys<K, V>(s: Seq<(K, V)>) -> Seq<K> {
    s.map_values(|e: (K, V)| e.0)
}

/// The values of an association list, in order.
pub open spec fn alist_vals<K, V>(s: Seq<(K, V)>) -> Seq<V> {
    s.map_values(|e: (K, V)| e.1)
}

/// Whether some entry carries the key `k`.
pub open spec fn alist_has_key<K, V>(s: Seq<(K, V)>, k: K) -> bool {
    exists|i: int| 0 <= i < s.len() && s[i].0 == k
}

/// An index of the entry carrying `k` (unique when the keys are distinct).
pub open spec fn alist_key_index<K, V>(s: Seq<(K, V)>, k: K) -> int {
    choose|i: int| 0 <= i < s.len() && s[i].0 == k
}

/// The value stored under `k`.
pub open spec fn alist_at<K, V>(s: Seq<(K, V)>, k: K) -> V {
    s[alist_key_index(s, k)].1
}

/// Pairwise-distinct keys: the invariant of every mapping in the engine.
pub open spec fn alist_no_dup_keys<K, V>(s: Seq<(K, V)>) -> bool {
    forall|i: int, j: int|
        0 <= i < s.len() && 0 <= j < s.len() && i != j ==> s[i].0 != s[j].0
}

/// With distinct keys, any entry that carries `k` holds `alist_at(s, k)`.
pub proof fn lemma_alist_at_index<K, V>(s: Seq<(K, V)>, i: int)
    requires
        alist_no_dup_keys(s),
        0 <= i < s.len(),
    ensures
        alist_has_key(s, s[i].0),
        alist_key_index(s, s[i].0) == i,
        alist_at(s, s[i].0) == s[i].1,
{
    assert(alist_has_key(s, s[i].0));
    let j = alist_key_index(s, s[i].0);
    assert(0 <= j < s.len() && s[j].0 == s[i].0);
    assert(j == i);
}

/// Distinct keys stated over the key sequence.
pub proof fn lemma_alist_keys_no_duplicates<K, V>(s: Seq<(K, V)>)
    requires
        alist_no_dup_keys(s),
    ensures
        alist_keys(s).no_duplicates(),
{
    assert forall|i: int, j: int|
        0 <= i < alist_keys(s).len() && 0 <= j < alist_keys(s).len() && i != j implies alist_keys(
        s,
    )[i] != alist_keys(s)[j] by {
        assert(alist_keys(s)[i] == s[i].0);
        assert(alist_keys(s)[j] == s[j].0);
    }
}

/// Holding a key and the key sequence containing it say the same thing.
pub proof fn lemma_alist_has_key_keys<K, V>(s: Seq<(K, V)>, k: K)
    ensures
        alist_has_key(s, k) <==> alist_keys(s).contains(k),
{
    if alist_has_key(s, k) {
        let i = choose|i: int| 0 <= i < s.len() && s[i].0 == k;
        assert(alist_keys(s)[i] == k);
    }
    if alist_keys(s).contains(k) {
        let i = choose|i: int| 0 <= i < alist_keys(s).len() && alist_keys(s)[i] == k;
        assert(s[i].0 == k);
    }
}

/// Distinct keys, read back from the key sequence.
pub proof fn lemma_alist_no_dup_from_keys<K, V>(s: Seq<(K, V)>)
    requires
        alist_keys(s).no_duplicates(),
    ensures
        alist_no_dup_keys(s),
{
    assert forall|i: int, j: int|
        0 <= i < s.len() && 0 <= j < s.len() && i != j implies s[i].0 != s[j].0 by {
        assert(alist_keys(s)[i] == s[i].0);
        assert(alist_keys(s)[j] == s[j].0);
    }
}

/// Looks a player up in an association list, returning a borrow of its value.
pub fn alist_get<'a, V>(s: &'a Vec<(PlayerId, V)>, k: PlayerId) -> (r: Option<&'a V>)
    requires
        alist_no_dup_keys(s@),
    ensures
        match r {
            Some(v) => alist_has_key(s@, k) && *v == alist_at(s@, k),
            None => !alist_has_key(s@, k),
        },
{
    let n = s.len();
    let mut i: usize = 0;
    while i < n
        invariant
            n == s@.len(),
            i <= n,
            alist_no_dup_keys(s@),
            forall|j: int| 0 <= j < i ==> s@[j].0 != k,
        decreases n - i,
    {
        if s[i].0 == k {
            proof {
                lemma_alist_at_index(s@, i as int);
            }
            return Some(&s[i].1);
        }
        i = i + 1;
    }
    None
}

/// Decides whether every key is bound at most once.
pub fn check_distinct_keys<V>(s: &Vec<(PlayerId, V)>) -> (r: bool)
    ensures
        r == alist_no_dup_keys(s@),
{
    let n = s.len();
    let mut a: usize = 0;
    while a < n
        invariant
            n == s@.len(),
            a <= n,
            forall|x: int, y: int|
                #![trigger s@[x], s@[y]]
                0 <= x < a && x < y < n ==> s@[x].0 != s@[y].0,
        decreases n - a,
    {
        let mut b: usize = a + 1;
        while b < n
            invariant
                n == s@.len(),
                a < n,
                a + 1 <= b <= n,
                forall|y: int| a < y < b ==> s@[a as int].0 != (#[trigger] s@[y]).0,
            decreases n - b,
        {
            if s[a].0 == s[b].0 {
                return false;
            }
            b = b + 1;
        }
        a = a + 1;
    }
    proof {
        assert forall|x: int, y: int|
            0 <= x < n && 0 <= y < n && x != y implies (#[trigger] s@[x]).0 != (
        #[trigger] s@[y]).0 by {
            if x < y {
            } else {
            }
        }
    }
    true
}

/// Finds the position of a player's entry.
pub fn alist_index_of<V>(s: &Vec<(PlayerId, V)>, k: PlayerId) -> (r: Option<usize>)
    ensures
        match r {
            Some(i) => i < s@.len() && s@[i as int].0 == k,
            None => !alist_has_key(s@, k),
        },
{
    let n = s.len();
    let mut i: usize = 0;
    while i < n
        invariant
            n == s@.len(),
            i <= n,
            forall|j: int| 0 <= j < i ==> s@[j].0 != k,
        decreases n - i,
    {
        if s[i].0 == k {
            return Some(i);
        }
        i = i + 1;
    }
    None
}
} // verus!

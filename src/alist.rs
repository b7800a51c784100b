//! Association lists keyed by strings: a vector of `(key, value)` pairs with
//! distinct keys, seen as a map from the keys' characters.

use vstd::prelude::*;

verus! {

/// No two pairs of `s` have keys with the same characters.
pub open spec fn keys_unique<X>(s: Seq<(String, X)>) -> bool {
    forall|i: int, j: int|
        0 <= i < s.len() && 0 <= j < s.len() && i != j ==> #[trigger] s[i].0@ != #[trigger] s[j].0@
}

/// The map that `s` stands for, each value seen through `f`; a later pair
/// overrides an earlier one with the same key.
pub open spec fn alist_view<X, Y>(s: Seq<(String, X)>, f: spec_fn(X) -> Y) -> Map<Seq<char>, Y>
    decreases s.len(),
{
    if s.len() == 0 {
        Map::empty()
    } else {
        alist_view(s.drop_last(), f).insert(s.last().0@, f(s.last().1))
    }
}

/// A key held by no pair is not in the map.
pub proof fn lemma_view_absent<X, Y>(s: Seq<(String, X)>, f: spec_fn(X) -> Y, k: Seq<char>)
    requires
        forall|i: int| 0 <= i < s.len() ==> #[trigger] s[i].0@ != k,
    ensures
        !alist_view(s, f).contains_key(k),
    decreases s.len(),
{
    if s.len() > 0 {
        let t = s.drop_last();
        assert forall|i: int| 0 <= i < t.len() implies #[trigger] t[i].0@ != k by {
            assert(t[i] == s[i]);
        }
        lemma_view_absent(t, f, k);
    }
}

/// Each pair of a list with distinct keys is found in the map.
pub proof fn lemma_view_index<X, Y>(s: Seq<(String, X)>, f: spec_fn(X) -> Y, i: int)
    requires
        keys_unique(s),
        0 <= i < s.len(),
    ensures
        alist_view(s, f).contains_key(s[i].0@),
        alist_view(s, f)[s[i].0@] == f(s[i].1),
    decreases s.len(),
{
    if i < s.len() - 1 {
        let t = s.drop_last();
        assert(t[i] == s[i]);
        assert(keys_unique(t)) by {
            assert forall|a: int, b: int|
                0 <= a < t.len() && 0 <= b < t.len() && a != b implies #[trigger] t[a].0@
                != #[trigger] t[b].0@ by {
                assert(t[a] == s[a] && t[b] == s[b]);
            }
        }
        lemma_view_index(t, f, i);
        assert(s[s.len() - 1].0@ != s[i].0@);
    }
}

/// Appending a pair inserts it into the map.
pub proof fn lemma_view_push<X, Y>(s: Seq<(String, X)>, f: spec_fn(X) -> Y, p: (String, X))
    ensures
        alist_view(s.push(p), f) == alist_view(s, f).insert(p.0@, f(p.1)),
{
    assert(s.push(p).drop_last() =~= s);
}

/// Replacing the value of a pair replaces it in the map.
pub proof fn lemma_view_update<X, Y>(
    s: Seq<(String, X)>,
    f: spec_fn(X) -> Y,
    i: int,
    p: (String, X),
)
    requires
        keys_unique(s),
        0 <= i < s.len(),
        p.0@ == s[i].0@,
    ensures
        keys_unique(s.update(i, p)),
        alist_view(s.update(i, p), f) == alist_view(s, f).insert(p.0@, f(p.1)),
    decreases s.len(),
{
    let u = s.update(i, p);
    assert(keys_unique(u)) by {
        assert forall|a: int, b: int|
            0 <= a < u.len() && 0 <= b < u.len() && a != b implies #[trigger] u[a].0@
            != #[trigger] u[b].0@ by {
            assert(u[a].0@ == s[a].0@ && u[b].0@ == s[b].0@);
        }
    }
    let t = s.drop_last();
    if i == s.len() - 1 {
        assert(u.drop_last() =~= t);
        assert(alist_view(u, f) =~= alist_view(s, f).insert(p.0@, f(p.1)));
    } else {
        assert(u.drop_last() =~= t.update(i, p));
        assert(keys_unique(t)) by {
            assert forall|a: int, b: int|
                0 <= a < t.len() && 0 <= b < t.len() && a != b implies #[trigger] t[a].0@
                != #[trigger] t[b].0@ by {
                assert(t[a] == s[a] && t[b] == s[b]);
            }
        }
        lemma_view_update(t, f, i, p);
        assert(s.last().0@ != s[i].0@);
        assert(alist_view(u, f) =~= alist_view(s, f).insert(p.0@, f(p.1)));
    }
}

/// Two lists whose pairs agree one by one, on the keys' characters and on
/// the values as seen, stand for the same map.
pub proof fn lemma_view_pointwise<X1, X2, Y>(
    s1: Seq<(String, X1)>,
    f1: spec_fn(X1) -> Y,
    s2: Seq<(String, X2)>,
    f2: spec_fn(X2) -> Y,
)
    requires
        s1.len() == s2.len(),
        forall|i: int|
            0 <= i < s1.len() ==> #[trigger] s1[i].0@ == s2[i].0@ && f1(s1[i].1) == f2(s2[i].1),
    ensures
        alist_view(s1, f1) == alist_view(s2, f2),
    decreases s1.len(),
{
    if s1.len() > 0 {
        let t1 = s1.drop_last();
        let t2 = s2.drop_last();
        assert forall|i: int| 0 <= i < t1.len() implies #[trigger] t1[i].0@ == t2[i].0@ && f1(
            t1[i].1,
        ) == f2(t2[i].1) by {
            assert(t1[i] == s1[i] && t2[i] == s2[i]);
        }
        lemma_view_pointwise(t1, f1, t2, f2);
        assert(s1[s1.len() - 1].0@ == s2[s2.len() - 1].0@);
    }
}

/// The map that a list stands for has the list's keys as its domain.
pub proof fn lemma_view_key<X, Y>(s: Seq<(String, X)>, f: spec_fn(X) -> Y, k: Seq<char>)
    requires
        alist_view(s, f).contains_key(k),
    ensures
        exists|i: int| 0 <= i < s.len() && #[trigger] s[i].0@ == k,
{
    if forall|i: int| 0 <= i < s.len() ==> #[trigger] s[i].0@ != k {
        lemma_view_absent(s, f, k);
    }
}

/// Every key of the list is in the map.
pub proof fn lemma_view_has<X, Y>(s: Seq<(String, X)>, f: spec_fn(X) -> Y, i: int)
    requires
        0 <= i < s.len(),
    ensures
        alist_view(s, f).contains_key(s[i].0@),
    decreases s.len(),
{
    if i < s.len() - 1 {
        assert(s.drop_last()[i] == s[i]);
        lemma_view_has(s.drop_last(), f, i);
    }
}

/// Finds the position of the pair whose key is `key`.
pub fn find_key<X>(s: &Vec<(String, X)>, key: &String) -> (r: Option<usize>)
    ensures
        match r {
            Some(i) => i < s@.len() && s@[i as int].0@ == key@,
            None => forall|i: int| 0 <= i < s@.len() ==> #[trigger] s@[i].0@ != key@,
        },
{
    let mut i: usize = 0;
    while i < s.len()
        invariant
            i <= s@.len(),
            forall|j: int| 0 <= j < i ==> #[trigger] s@[j].0@ != key@,
        decreases s@.len() - i,
    {
        if s[i].0 == *key {
            return Some(i);
        }
        i += 1;
    }
    None
}

} // verus!

//! The lexicographic order of identifiers, and sorting by it.

use vstd::prelude::*;
use vstd::multiset::Multiset;
use vstd::seq_lib::{to_multiset_build, to_multiset_contains, to_multiset_insert, to_multiset_len};

verus! {

/// Whether `a` comes no later than `b` in lexicographic order of their
/// characters' code points (the order of `str`'s `cmp`).
pub open spec fn lex_le(a: Seq<char>, b: Seq<char>) -> bool
    decreases a.len(),
{
    if a.len() == 0 {
        true
    } else if b.len() == 0 {
        false
    } else if a[0] != b[0] {
        (a[0] as u32) <= (b[0] as u32)
    } else {
        lex_le(a.drop_first(), b.drop_first())
    }
}

/// The strings of `s` come in lexicographic order.
pub open spec fn ids_sorted(s: Seq<String>) -> bool {
    forall|i: int| 0 <= i < s.len() - 1 ==> lex_le(#[trigger] s[i]@, s[i + 1]@)
}

/// Of two sequences, one comes no later than the other.
pub proof fn lemma_lex_total(a: Seq<char>, b: Seq<char>)
    ensures
        lex_le(a, b) || lex_le(b, a),
    decreases a.len(),
{
    if a.len() > 0 && b.len() > 0 && a[0] == b[0] {
        lemma_lex_total(a.drop_first(), b.drop_first());
    }
}

/// Whether `a` comes no later than `b` in lexicographic order.
pub fn id_le(a: &str, b: &str) -> (r: bool)
    ensures
        r == lex_le(a@, b@),
{
    let n = a.unicode_len();
    let m = b.unicode_len();
    let mut i: usize = 0;
    assert(a@.skip(0) =~= a@ && b@.skip(0) =~= b@);
    while i < n && i < m
        invariant
            n == a@.len(),
            m == b@.len(),
            i <= n,
            i <= m,
            lex_le(a@, b@) == lex_le(a@.skip(i as int), b@.skip(i as int)),
        decreases n - i,
    {
        let x = a.get_char(i);
        let y = b.get_char(i);
        assert(a@.skip(i as int)[0] == x && b@.skip(i as int)[0] == y);
        if x != y {
            return (x as u32) <= (y as u32);
        }
        assert(a@.skip(i as int).drop_first() =~= a@.skip(i + 1));
        assert(b@.skip(i as int).drop_first() =~= b@.skip(i + 1));
        i += 1;
    }
    i == n
}

/// The characters of each identifier.
pub open spec fn ids_view(ids: Seq<String>) -> Seq<Seq<char>> {
    ids.map_values(|s: String| s@)
}

/// Sorts identifiers in lexicographic order.
pub fn sort_ids(v: Vec<String>) -> (r: Vec<String>)
    ensures
        r@.to_multiset() == v@.to_multiset(),
        ids_view(r@).to_multiset() == ids_view(v@).to_multiset(),
        ids_sorted(r@),
{
    broadcast use vstd::seq_lib::group_to_multiset_ensures, vstd::multiset::group_multiset_axioms;

    let ghost all = v@;
    assert(Seq::<String>::empty().to_multiset() =~= Multiset::empty());
    assert(ids_view(Seq::<String>::empty()) =~= Seq::<Seq<char>>::empty());
    assert(Seq::<Seq<char>>::empty().to_multiset() =~= Multiset::empty());
    let mut rest = v;
    let mut out: Vec<String> = Vec::new();
    while rest.len() > 0
        invariant
            out@.to_multiset().add(rest@.to_multiset()) == all.to_multiset(),
            ids_view(out@).to_multiset().add(ids_view(rest@).to_multiset()) == ids_view(
                all,
            ).to_multiset(),
            ids_sorted(out@),
        decreases rest@.len(),
    {
        let ghost before = rest@;
        let x = rest.remove(rest.len() - 1);
        proof {
            assert(before =~= rest@.push(x));
            to_multiset_build(rest@, x);
            assert(ids_view(before) =~= ids_view(rest@).push(x@));
            to_multiset_build(ids_view(rest@), x@);
        }
        let mut p: usize = 0;
        while p < out.len() && id_le(out[p].as_str(), x.as_str())
            invariant
                p <= out@.len(),
                forall|k: int| 0 <= k < p ==> lex_le(#[trigger] out@[k]@, x@),
            decreases out@.len() - p,
        {
            p += 1;
        }
        let ghost prev = out@;
        proof {
            if p < prev.len() {
                lemma_lex_total(prev[p as int]@, x@);
            }
            to_multiset_insert(prev, p as int, x);
            to_multiset_insert(ids_view(prev), p as int, x@);
            assert(ids_view(prev.insert(p as int, x)) =~= ids_view(prev).insert(p as int, x@));
        }
        out.insert(p, x);
        proof {
            assert(out@ == prev.insert(p as int, x));
            assert forall|i: int| 0 <= i < out@.len() - 1 implies lex_le(
                #[trigger] out@[i]@,
                out@[i + 1]@,
            ) by {
                if i < p - 1 {
                    assert(out@[i] == prev[i] && out@[i + 1] == prev[i + 1]);
                } else if i == p - 1 {
                    assert(out@[i] == prev[i]);
                } else if i == p {
                    assert(out@[i + 1] == prev[i]);
                } else {
                    assert(out@[i] == prev[i - 1] && out@[i + 1] == prev[i]);
                }
            }
            assert(out@.to_multiset().add(rest@.to_multiset()) =~= all.to_multiset());
            assert(ids_view(out@).to_multiset().add(ids_view(rest@).to_multiset()) =~= ids_view(
                all,
            ).to_multiset());
        }
    }
    assert(rest@ =~= Seq::<String>::empty());
    assert(rest@.to_multiset() =~= Multiset::empty());
    assert(out@.to_multiset() =~= all.to_multiset());
    assert(ids_view(rest@) =~= Seq::<Seq<char>>::empty());
    assert(ids_view(out@).to_multiset() =~= ids_view(all).to_multiset());
    out
}

/// Sequences with the same elements counted with multiplicity hold the same
/// elements and have the same length.
pub proof fn lemma_same_elements<A>(a: Seq<A>, b: Seq<A>)
    requires
        a.to_multiset() == b.to_multiset(),
    ensures
        a.len() == b.len(),
        forall|x: A| a.contains(x) <==> b.contains(x),
{
    to_multiset_len(a);
    to_multiset_len(b);
    assert forall|x: A| a.contains(x) <==> b.contains(x) by {
        to_multiset_contains(a, x);
        to_multiset_contains(b, x);
    }
}

} // verus!

//! Facts about sequences that are rearrangements of one another, stated via
//! `to_multiset`: what survives a shuffle.

use vstd::multiset::Multiset;
use vstd::prelude::*;

verus! {

/// Rearranging a sequence rearranges any projection of it the same way.
pub proof fn lemma_map_values_to_multiset<A, B>(s: Seq<A>, t: Seq<A>, f: spec_fn(A) -> B)
    requires
        s.to_multiset() == t.to_multiset(),
    ensures
        s.map_values(f).to_multiset() == t.map_values(f).to_multiset(),
    decreases s.len(),
{
    broadcast use vstd::seq_lib::group_to_multiset_ensures;

    if s.len() == 0 {
        assert(s.to_multiset().len() == s.len());
        assert(t.to_multiset().len() == t.len());
        assert(t.len() == 0);
        assert(s.map_values(f) =~= t.map_values(f));
    } else {
        let a = s.last();
        assert(s.contains(a));
        assert(t.to_multiset().count(a) > 0);
        assert(t.contains(a));
        let j = choose|j: int| 0 <= j < t.len() && t[j] == a;
        assert(s.remove(s.len() - 1) =~= s.drop_last());
        assert(s.drop_last().to_multiset() == s.to_multiset().remove(a));
        assert(t.remove(j).to_multiset() == t.to_multiset().remove(a));
        lemma_map_values_to_multiset(s.drop_last(), t.remove(j), f);
        assert(s.drop_last().map_values(f).push(f(a)) =~= s.map_values(f));
        assert(s.map_values(f).to_multiset() == s.drop_last().map_values(f).to_multiset().insert(
            f(a),
        ));
        assert(t.remove(j).map_values(f) =~= t.map_values(f).remove(j));
        assert(t.map_values(f).remove(j).to_multiset() == t.map_values(f).to_multiset().remove(
            f(a),
        ));
        assert(t.map_values(f).contains(f(a))) by {
            assert(t.map_values(f)[j] == f(a));
        }
        assert(t.map_values(f).to_multiset().count(f(a)) > 0);
        assert(t.map_values(f).to_multiset().remove(f(a)).insert(f(a)) =~= t.map_values(
            f,
        ).to_multiset());
        assert(s.map_values(f).to_multiset() == t.map_values(f).to_multiset());
    }
}

/// A rearrangement of a duplicate-free sequence is duplicate-free.
pub proof fn lemma_no_duplicates_to_multiset<A>(s: Seq<A>, t: Seq<A>)
    requires
        s.to_multiset() == t.to_multiset(),
        s.no_duplicates(),
    ensures
        t.no_duplicates(),
{
    s.lemma_multiset_has_no_duplicates();
    t.lemma_multiset_has_no_duplicates_conv();
}

/// Elements survive a rearrangement.
pub proof fn lemma_contains_to_multiset<A>(s: Seq<A>, t: Seq<A>, a: A)
    requires
        s.to_multiset() == t.to_multiset(),
        s.contains(a),
    ensures
        t.contains(a),
{
    broadcast use vstd::seq_lib::group_to_multiset_ensures;

    assert(s.to_multiset().count(a) > 0);
}

/// Two duplicate-free sequences with the same elements carry the same
/// multiset.
pub proof fn lemma_same_elements_to_multiset<A>(s: Seq<A>, t: Seq<A>)
    requires
        s.no_duplicates(),
        t.no_duplicates(),
        forall|x: A| s.contains(x) <==> t.contains(x),
    ensures
        s.to_multiset() == t.to_multiset(),
{
    broadcast use vstd::seq_lib::group_to_multiset_ensures;

    s.lemma_multiset_has_no_duplicates();
    t.lemma_multiset_has_no_duplicates();
    assert forall|x: A| s.to_multiset().count(x) == t.to_multiset().count(x) by {
        if s.contains(x) {
            assert(s.to_multiset().count(x) == 1);
            assert(t.to_multiset().count(x) == 1);
        } else {
            assert(s.to_multiset().count(x) == 0);
            assert(t.to_multiset().count(x) == 0);
        }
    }
    assert(s.to_multiset() =~= t.to_multiset());
}

/// The multiset of all items of a sequence of rows.
pub open spec fn rows_multiset<A>(s: Seq<Seq<A>>) -> Multiset<A>
    decreases s.len(),
{
    if s.len() == 0 {
        Multiset::empty()
    } else {
        rows_multiset(s.drop_last()).add(s.last().to_multiset())
    }
}

/// Rearranging within each row leaves the whole unchanged.
pub proof fn lemma_rows_multiset_pointwise<A>(s: Seq<Seq<A>>, t: Seq<Seq<A>>)
    requires
        s.len() == t.len(),
        forall|i: int| 0 <= i < s.len() ==> (#[trigger] s[i]).to_multiset() == t[i].to_multiset(),
    ensures
        rows_multiset(s) == rows_multiset(t),
    decreases s.len(),
{
    if s.len() > 0 {
        lemma_rows_multiset_pointwise(s.drop_last(), t.drop_last());
    }
}

/// Splitting every non-empty row into its body and its last item splits the
/// whole the same way.
pub proof fn lemma_rows_multiset_drop_lasts<A>(s: Seq<Seq<A>>)
    requires
        forall|i: int| 0 <= i < s.len() ==> (#[trigger] s[i]).len() > 0,
    ensures
        rows_multiset(s) == rows_multiset(s.map_values(|r: Seq<A>| r.drop_last())).add(
            s.map_values(|r: Seq<A>| r.last()).to_multiset(),
        ),
    decreases s.len(),
{
    broadcast use vstd::seq_lib::group_to_multiset_ensures;

    let bodies = s.map_values(|r: Seq<A>| r.drop_last());
    let lasts = s.map_values(|r: Seq<A>| r.last());
    if s.len() == 0 {
        assert(bodies =~= Seq::<Seq<A>>::empty());
        assert(lasts =~= Seq::<A>::empty());
        assert(rows_multiset(s).add(lasts.to_multiset()) =~= rows_multiset(s));
    } else {
        let s0 = s.drop_last();
        let row = s.last();
        lemma_rows_multiset_drop_lasts(s0);
        let bodies0 = s0.map_values(|r: Seq<A>| r.drop_last());
        let lasts0 = s0.map_values(|r: Seq<A>| r.last());
        assert(bodies =~= bodies0.push(row.drop_last()));
        assert(lasts =~= lasts0.push(row.last()));
        assert(bodies.drop_last() =~= bodies0);
        assert(rows_multiset(bodies) == rows_multiset(bodies0).add(row.drop_last().to_multiset()));
        assert(lasts.to_multiset() =~= lasts0.to_multiset().insert(row.last()));
        assert(row.drop_last().push(row.last()) =~= row);
        assert(row.to_multiset() =~= row.drop_last().to_multiset().insert(row.last()));
        assert(rows_multiset(s) == rows_multiset(s0).add(row.to_multiset()));
        assert(rows_multiset(s) =~= rows_multiset(bodies).add(lasts.to_multiset()));
    }
}

/// All rows empty: nothing in the whole.
pub proof fn lemma_rows_multiset_all_empty<A>(s: Seq<Seq<A>>)
    requires
        forall|i: int| 0 <= i < s.len() ==> (#[trigger] s[i]).len() == 0,
    ensures
        rows_multiset(s) == Multiset::<A>::empty(),
    decreases s.len(),
{
    broadcast use vstd::seq_lib::group_to_multiset_ensures;

    if s.len() > 0 {
        lemma_rows_multiset_all_empty(s.drop_last());
        assert(s.last().to_multiset().len() == 0);
        assert(rows_multiset(s) =~= Multiset::<A>::empty());
    }
}

/// Transposing a rectangular grid keeps the multiset of all its items.
pub proof fn lemma_transpose_rows_multiset<A>(s: Seq<Seq<A>>, t: Seq<Seq<A>>, m: int)
    requires
        0 <= m,
        forall|j: int| 0 <= j < s.len() ==> (#[trigger] s[j]).len() == m,
        t.len() == m,
        forall|i: int| 0 <= i < t.len() ==> (#[trigger] t[i]).len() == s.len(),
        forall|i: int, j: int| 0 <= i < m && 0 <= j < s.len() ==> (#[trigger] t[i][j]) == s[j][i],
    ensures
        rows_multiset(t) == rows_multiset(s),
    decreases m,
{
    if m == 0 {
        lemma_rows_multiset_all_empty(s);
        assert(t.len() == 0);
    } else {
        let bodies = s.map_values(|r: Seq<A>| r.drop_last());
        let lasts = s.map_values(|r: Seq<A>| r.last());
        let t0 = t.drop_last();
        lemma_transpose_rows_multiset(bodies, t0, m - 1);
        lemma_rows_multiset_drop_lasts(s);
        assert(t.last() =~= lasts);
        assert(rows_multiset(t) == rows_multiset(t0).add(lasts.to_multiset()));
    }
}

/// Rotating a sequence by one keeps its multiset.
pub proof fn lemma_rotate_to_multiset<A>(s: Seq<A>)
    requires
        s.len() > 0,
    ensures
        (s.subrange(s.len() - 1, s.len() as int) + s.drop_last()).to_multiset() == s.to_multiset(),
{
    let front = s.subrange(s.len() - 1, s.len() as int);
    let rest = s.drop_last();
    vstd::seq_lib::lemma_multiset_commutative(front, rest);
    vstd::seq_lib::lemma_multiset_commutative(rest, front);
    assert(rest + front =~= s);
}

} // verus!

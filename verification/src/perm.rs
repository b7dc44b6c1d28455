//! Facts about sequences viewed as multisets, shared by the ranking and the
//! permutation-preserving crossover proofs.

use vstd::prelude::*;

verus! {

/// Two sequences with equal multisets contain the same elements.
pub proof fn lemma_multiset_eq_elements<T>(a: Seq<T>, b: Seq<T>)
    requires
        a.to_multiset() == b.to_multiset(),
    ensures
        forall|i: int| 0 <= i < b.len() ==> #[trigger] a.contains(b[i]),
{
    broadcast use vstd::seq_lib::group_to_multiset_ensures;

    assert forall|i: int| 0 <= i < b.len() implies #[trigger] a.contains(b[i]) by {
        assert(b.contains(b[i]));
        assert(b.to_multiset().count(b[i]) > 0);
        assert(a.to_multiset().count(b[i]) > 0);
    }
}

} // verus!

verus! {

/// How often an element occurs in a filtered sequence: as often as in the
/// sequence when it satisfies the predicate, never otherwise.
pub proof fn lemma_filter_multiset_count<T>(s: Seq<T>, pred: spec_fn(T) -> bool, x: T)
    ensures
        s.filter(pred).to_multiset().count(x) == (if pred(x) {
            s.to_multiset().count(x)
        } else {
            0
        }),
    decreases s.len(),
{
    broadcast use vstd::seq_lib::group_to_multiset_ensures;

    reveal(Seq::filter);
    if s.len() == 0 {
        assert(!s.contains(x));
        assert(!s.filter(pred).contains(x));
    } else {
        lemma_filter_multiset_count(s.drop_last(), pred, x);
        assert(s =~= s.drop_last().push(s.last()));
        assert(s.to_multiset() == s.drop_last().push(s.last()).to_multiset());
        assert(s.drop_last().push(s.last()).to_multiset() =~= s.drop_last().to_multiset().insert(
            s.last(),
        ));
        if pred(s.last()) {
            assert(s.filter(pred) == s.drop_last().filter(pred).push(s.last()));
            assert(s.drop_last().filter(pred).push(s.last()).to_multiset()
                =~= s.drop_last().filter(pred).to_multiset().insert(s.last()));
        }
    }
}

/// Filtering a duplicate-free sequence by "not in the segment", then putting
/// the segment back, restores the original multiset, provided the segment is
/// itself duplicate-free and all its elements occur in the sequence.
pub proof fn lemma_segment_filter_multiset<T>(s: Seq<T>, seg: Seq<T>)
    requires
        s.no_duplicates(),
        seg.no_duplicates(),
        forall|i: int| 0 <= i < seg.len() ==> s.contains(#[trigger] seg[i]),
    ensures
        s.filter(|p: T| !seg.contains(p)).to_multiset().add(seg.to_multiset())
            == s.to_multiset(),
        s.filter(|p: T| !seg.contains(p)).len() == s.len() - seg.len(),
        s.filter(|p: T| !seg.contains(p)).no_duplicates(),
{
    broadcast use vstd::seq_lib::group_to_multiset_ensures;

    let pred = |p: T| !seg.contains(p);
    let f = s.filter(pred);
    s.lemma_multiset_has_no_duplicates();
    seg.lemma_multiset_has_no_duplicates();
    assert forall|x: T|
        f.to_multiset().add(seg.to_multiset()).count(x) == s.to_multiset().count(x) by {
        lemma_filter_multiset_count(s, pred, x);
        if seg.contains(x) {
            let k = choose|k: int| 0 <= k < seg.len() && seg[k] == x;
            assert(s.contains(seg[k]));
            assert(s.to_multiset().count(x) == 1);
            assert(seg.to_multiset().count(x) == 1);
        } else {
            assert(seg.to_multiset().count(x) == 0);
        }
    }
    assert(f.to_multiset().add(seg.to_multiset()) =~= s.to_multiset());

    // The lengths follow from the multiset lengths of both sides.
    assert(f.to_multiset().add(seg.to_multiset()).len() == s.to_multiset().len());
    assert(f.len() == s.len() - seg.len());

    // The filtered part keeps each element at most once, so it is itself
    // duplicate-free.
    assert forall|x: T| f.to_multiset().contains(x) implies f.to_multiset().count(x) == 1 by {
        lemma_filter_multiset_count(s, pred, x);
    }
    f.lemma_multiset_has_no_duplicates_conv();
}

/// Two sequences with equal multisets have equal lengths.
pub proof fn lemma_multiset_eq_len<T>(a: Seq<T>, b: Seq<T>)
    requires
        a.to_multiset() == b.to_multiset(),
    ensures
        a.len() == b.len(),
{
    broadcast use vstd::seq_lib::group_to_multiset_ensures;

    assert(a.len() == a.to_multiset().len());
    assert(b.len() == b.to_multiset().len());
}

/// A sequence with the multiset of a duplicate-free sequence is itself
/// duplicate-free.
pub proof fn lemma_multiset_eq_no_duplicates<T>(a: Seq<T>, b: Seq<T>)
    requires
        a.to_multiset() == b.to_multiset(),
        a.no_duplicates(),
    ensures
        b.no_duplicates(),
{
    a.lemma_multiset_has_no_duplicates();
    b.lemma_multiset_has_no_duplicates_conv();
}

/// Swapping two positions of a sequence leaves its multiset unchanged.
pub proof fn lemma_swap_multiset<T>(s: Seq<T>, i: int, j: int)
    requires
        0 <= i < s.len(),
        0 <= j < s.len(),
    ensures
        s.update(i, s[j]).update(j, s[i]).to_multiset() == s.to_multiset(),
{
    broadcast use vstd::seq_lib::group_to_multiset_ensures;

    let s1 = s.update(i, s[j]);
    let s2 = s1.update(j, s[i]);
    assert(s1.to_multiset() =~= s.to_multiset().remove(s[i]).insert(s[j]));
    if i == j {
        assert(s2.to_multiset() =~= s.to_multiset());
    } else {
        assert(s1[j] == s[j]);
        assert(s2.to_multiset() =~= s1.to_multiset().remove(s[j]).insert(s[i]));
        assert(s.to_multiset().contains(s[i]));
        assert(s2.to_multiset() =~= s.to_multiset());
    }
}

} // verus!

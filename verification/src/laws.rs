//! The partition's guarantees, stated and proved once for every input:
//! it is total (no address lost, none duplicated) and stable (each half
//! keeps the source's relative order), and without single-family pinning
//! the first address of the source leads the preferred half.

use vstd::prelude::*;

use crate::addr::SockAddr;
use crate::addrs::family_filter;
use crate::addrs::split_spec;

verus! {

/// `a` occurs within `b`, in order: `a` can be had from `b` by deleting
/// elements without reordering the rest.
pub open spec fn is_subseq_of(a: Seq<SockAddr>, b: Seq<SockAddr>) -> bool
    decreases b.len(),
{
    if a.len() == 0 {
        true
    } else if b.len() == 0 {
        false
    } else {
        (a.last() == b.last() && is_subseq_of(a.drop_last(), b.drop_last())) || is_subseq_of(
            a,
            b.drop_last(),
        )
    }
}

/// A family filter keeps a subsequence of its source: the kept elements
/// stand in their original relative order.
pub proof fn lemma_family_filter_subseq(s: Seq<SockAddr>, v6: bool)
    ensures
        is_subseq_of(family_filter(s, v6), s),
    decreases s.len(),
{
    reveal(Seq::filter);
    if s.len() == 0 {
        assert(family_filter(s, v6) =~= Seq::<SockAddr>::empty());
    } else {
        let dl = s.drop_last();
        lemma_family_filter_subseq(dl, v6);
        if s.last().is_v6() == v6 {
            assert(family_filter(s, v6) == family_filter(dl, v6).push(s.last()));
            assert(family_filter(s, v6).drop_last() =~= family_filter(dl, v6));
            assert(family_filter(s, v6).last() == s.last());
        } else {
            assert(family_filter(s, v6) == family_filter(dl, v6));
        }
    }
}

/// Counting both families accounts for every element: the two filters
/// split the length, and together they carry the very multiset of `s`.
pub proof fn lemma_family_filter_total(s: Seq<SockAddr>, v6: bool)
    ensures
        family_filter(s, v6).len() + family_filter(s, !v6).len() == s.len(),
        family_filter(s, v6).to_multiset().add(family_filter(s, !v6).to_multiset())
            == s.to_multiset(),
    decreases s.len(),
{
    reveal(Seq::filter);
    broadcast use vstd::seq_lib::group_to_multiset_ensures;
    broadcast use vstd::multiset::group_multiset_axioms;

    let p = family_filter(s, v6);
    let f = family_filter(s, !v6);
    if s.len() == 0 {
        assert(p =~= Seq::<SockAddr>::empty());
        assert(f =~= Seq::<SockAddr>::empty());
        assert(p.to_multiset().add(f.to_multiset()) =~= s.to_multiset());
    } else {
        let dl = s.drop_last();
        let x = s.last();
        lemma_family_filter_total(dl, v6);
        let pd = family_filter(dl, v6);
        let fd = family_filter(dl, !v6);
        assert(s =~= dl.push(x));
        assert(s.to_multiset() == dl.push(x).to_multiset());
        if x.is_v6() == v6 {
            assert(p == pd.push(x));
            assert(f == fd);
            assert(p.to_multiset() == pd.to_multiset().insert(x));
            assert(p.to_multiset().add(f.to_multiset()) =~= s.to_multiset());
        } else {
            assert(p == pd);
            assert(f == fd.push(x));
            assert(f.to_multiset() == fd.to_multiset().insert(x));
            assert(p.to_multiset().add(f.to_multiset()) =~= s.to_multiset());
        }
    }
}

/// A filter that every element passes returns its source unchanged.
pub proof fn lemma_family_filter_all(s: Seq<SockAddr>, v6: bool)
    requires
        forall|i: int| 0 <= i < s.len() ==> (#[trigger] s[i]).is_v6() == v6,
    ensures
        family_filter(s, v6) == s,
    decreases s.len(),
{
    reveal(Seq::filter);
    if s.len() == 0 {
        assert(family_filter(s, v6) =~= s);
    } else {
        let dl = s.drop_last();
        lemma_family_filter_all(dl, v6);
        assert(s.last().is_v6() == v6);
        assert(family_filter(s, v6) =~= s);
    }
}

/// A filter keeps a first element of the matching family in place.
pub proof fn lemma_family_filter_first(s: Seq<SockAddr>, v6: bool)
    requires
        s.len() > 0,
        s[0].is_v6() == v6,
    ensures
        family_filter(s, v6).len() > 0,
        family_filter(s, v6)[0] == s[0],
    decreases s.len(),
{
    reveal(Seq::filter);
    if s.len() == 1 {
        assert(s.drop_last() =~= Seq::<SockAddr>::empty());
        assert(family_filter(s.drop_last(), v6) =~= Seq::<SockAddr>::empty());
        assert(s.last() == s[0]);
    } else {
        let dl = s.drop_last();
        assert(dl[0] == s[0]);
        lemma_family_filter_first(dl, v6);
        if s.last().is_v6() == v6 {
            assert(family_filter(s, v6) == family_filter(dl, v6).push(s.last()));
        } else {
            assert(family_filter(s, v6) == family_filter(dl, v6));
        }
    }
}

/// Totality of the partition: no element is lost and none is duplicated.
/// With exactly one family pinned the partition keeps that family alone,
/// so the law asks that the source hold no address of the other family;
/// with both families pinned or neither, it holds of every source.
pub proof fn lemma_split_total(s: Seq<SockAddr>, pin_v4: bool, pin_v6: bool)
    requires
        pin_v4 != pin_v6 ==> forall|i: int| 0 <= i < s.len() ==> (#[trigger] s[i]).is_v6()
            == pin_v6,
    ensures
        split_spec(s, pin_v4, pin_v6).0.len() + split_spec(s, pin_v4, pin_v6).1.len() == s.len(),
        split_spec(s, pin_v4, pin_v6).0.to_multiset().add(
            split_spec(s, pin_v4, pin_v6).1.to_multiset(),
        ) == s.to_multiset(),
{
    broadcast use vstd::seq_lib::group_to_multiset_ensures;
    broadcast use vstd::multiset::group_multiset_axioms;

    if pin_v4 != pin_v6 {
        lemma_family_filter_all(s, pin_v6);
        let e = Seq::<SockAddr>::empty();
        assert(e.to_multiset().len() == 0);
        assert(s.to_multiset().add(e.to_multiset()) =~= s.to_multiset());
    } else {
        let prefer_v6 = s.len() > 0 && s[0].is_v6();
        lemma_family_filter_total(s, prefer_v6);
    }
}

/// Order-preservation of the partition: each half is a subsequence of
/// the source, for every pinning input.
pub proof fn lemma_split_order(s: Seq<SockAddr>, pin_v4: bool, pin_v6: bool)
    ensures
        is_subseq_of(split_spec(s, pin_v4, pin_v6).0, s),
        is_subseq_of(split_spec(s, pin_v4, pin_v6).1, s),
{
    lemma_family_filter_subseq(s, true);
    lemma_family_filter_subseq(s, false);
}

/// The first-address rule: with both families pinned or neither, the
/// first address of a non-empty source opens the preferred half.
pub proof fn lemma_split_first(s: Seq<SockAddr>, pin_v4: bool, pin_v6: bool)
    requires
        s.len() > 0,
        pin_v4 == pin_v6,
    ensures
        split_spec(s, pin_v4, pin_v6).0.len() > 0,
        split_spec(s, pin_v4, pin_v6).0[0] == s[0],
{
    lemma_family_filter_first(s, s[0].is_v6());
}

} // verus!

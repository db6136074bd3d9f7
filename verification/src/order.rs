//! Ranking values for sorting, and std's unstable sort driven by a ranking.

use std::cmp::Ordering;

use vstd::prelude::*;

verus! {

/// A strict weak order on a type: `ranks_before` is irreflexive and
/// transitive, and "neither before the other" is an equivalence.
pub trait Ranked: Sized {
    spec fn ranks_before(&self, other: &Self) -> bool;

    proof fn lemma_rank_order(a: &Self, b: &Self, c: &Self)
        ensures
            !a.ranks_before(a),
            a.ranks_before(b) && b.ranks_before(c) ==> a.ranks_before(c),
            (!a.ranks_before(b) && !b.ranks_before(a) && !b.ranks_before(c) && !c.ranks_before(b))
                ==> (!a.ranks_before(c) && !c.ranks_before(a)),
            a.ranks_before(c) ==> a.ranks_before(b) || b.ranks_before(c),
    ;

    /// -1 when `self` ranks before `other`, 1 when after, 0 otherwise.
    fn rank_against(&self, other: &Self) -> (r: i8)
        ensures
            (r == -1) == self.ranks_before(other),
            (r == 1) == other.ranks_before(self),
    ;
}

/// The `Ordering` that `rank_against` describes.
pub fn rank_ordering<T: Ranked>(a: &T, b: &T) -> (o: Ordering)
    ensures
        (o is Less) == a.ranks_before(b),
        (o is Greater) == b.ranks_before(a),
{
    let r = a.rank_against(b);
    if r == -1 {
        Ordering::Less
    } else if r == 1 {
        Ordering::Greater
    } else {
        Ordering::Equal
    }
}

/// `s` is in rank order: no element ranks before an earlier one.
pub open spec fn rank_sorted<T: Ranked>(s: Seq<T>) -> bool {
    forall|i: int, j: int|
        #![trigger s[i], s[j]]
        0 <= i < j < s.len() ==> !s[j].ranks_before(&s[i])
}

/// std's `slice::sort_unstable_by` with `rank_ordering` as the comparator:
/// afterwards `v` holds the same elements, in rank order. `Ranked` makes the
/// comparator a total order, as std's documentation requires.
#[verifier::external_body]
pub(crate) fn sort_ranked<T: Ranked>(v: &mut Vec<T>)
    ensures
        final(v)@.to_multiset() == old(v)@.to_multiset(),
        rank_sorted(final(v)@),
{
    v.sort_unstable_by(|a, b| rank_ordering(a, b));
}


/// Neither ranks before the other.
pub open spec fn same_rank<T: Ranked>(a: T, b: T) -> bool {
    !a.ranks_before(&b) && !b.ranks_before(&a)
}

/// In a rank-sorted sequence, elements of the same rank are adjacent: one at
/// position `t` shares its rank with some other element exactly when it shares
/// it with a neighbour.
pub proof fn lemma_same_rank_neighbour<T: Ranked>(s: Seq<T>, t: int)
    requires
        rank_sorted(s),
        0 <= t < s.len(),
    ensures
        (exists|u: int| 0 <= u < s.len() && u != t && same_rank(s[u], s[t])) <==> ((t > 0
            && same_rank(s[t - 1], s[t])) || (t + 1 < s.len() && same_rank(s[t + 1], s[t]))),
{
    if exists|u: int| 0 <= u < s.len() && u != t && same_rank(s[u], s[t]) {
        let u = choose|u: int| 0 <= u < s.len() && u != t && same_rank(s[u], s[t]);
        if u < t {
            T::lemma_rank_order(&s[t - 1], &s[t - 1], &s[t]);
            T::lemma_rank_order(&s[t - 1], &s[u], &s[t]);
            T::lemma_rank_order(&s[u], &s[t - 1], &s[t]);
            assert(!s[t - 1].ranks_before(&s[u]) || u == t - 1);
            assert(!s[t].ranks_before(&s[t - 1]));
        } else {
            T::lemma_rank_order(&s[t], &s[t + 1], &s[u]);
            T::lemma_rank_order(&s[t], &s[u], &s[t + 1]);
            T::lemma_rank_order(&s[t + 1], &s[t + 1], &s[t]);
            assert(!s[u].ranks_before(&s[t + 1]) || u == t + 1);
            assert(!s[t + 1].ranks_before(&s[t]));
        }
    }
    if t > 0 && same_rank(s[t - 1], s[t]) {
        assert(same_rank(s[t - 1], s[t]));
    }
    if t + 1 < s.len() && same_rank(s[t + 1], s[t]) {
        assert(same_rank(s[t + 1], s[t]));
    }
}


/// In a rank-sorted sequence, everything between two elements of the same
/// rank has that rank too.
pub proof fn lemma_same_rank_between<T: Ranked>(s: Seq<T>, a: int, b: int, c: int)
    requires
        rank_sorted(s),
        0 <= a < b < c < s.len(),
        same_rank(s[a], s[c]),
    ensures
        same_rank(s[a], s[b]),
        same_rank(s[b], s[c]),
{
    T::lemma_rank_order(&s[a], &s[c], &s[b]);
    T::lemma_rank_order(&s[b], &s[a], &s[c]);
    assert(!s[b].ranks_before(&s[a]));
    assert(!s[c].ranks_before(&s[b]));
}

} // verus!

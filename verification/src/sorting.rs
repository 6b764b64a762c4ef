//! Sorting of field-element vectors.  The sorted multiset union of lookup
//! values and table values is the backbone of the plookup argument: sorting
//! is sound there because the grand product certifies multiset equality, not
//! positional equality.
use vstd::prelude::*;

verus! {

use vstd::seq_lib::lemma_multiset_commutative;
use vstd::multiset::Multiset;
use crate::field::{all_in_field, in_field};

/// The sequence is in non-decreasing order.
pub open spec fn sorted(s: Seq<u64>) -> bool {
    forall|i: int, j: int| 0 <= i <= j < s.len() ==> s[i] <= s[j]
}

/// The sorted rearrangement of a sequence, as a specification-level value:
/// by `lemma_sorted_unique` there is exactly one sorted sequence with a
/// given multiset, so this names it.
pub open spec fn sort_of(s: Seq<u64>) -> Seq<u64> {
    choose|t: Seq<u64>| sorted(t) && #[trigger] t.to_multiset() == s.to_multiset()
}

/// Two sorted sequences with the same multiset of values are equal: sorting
/// a multiset has exactly one result, so re-sorting any permutation of a
/// sorted sequence reproduces it.
pub proof fn lemma_sorted_unique(a: Seq<u64>, b: Seq<u64>)
    requires sorted(a), sorted(b), a.to_multiset() == b.to_multiset(),
    ensures a == b,
    decreases a.len(),
{
    broadcast use vstd::seq_lib::group_to_multiset_ensures;
    if a.len() == 0 {
        assert(a =~= b);
    } else {
        a.to_multiset_ensures();
        b.to_multiset_ensures();
        assert(a.to_multiset().len() == b.to_multiset().len());
        assert(b.len() > 0);
        assert(a.contains(a[0]));
        assert(b.to_multiset().contains(a[0]));
        assert(b.contains(a[0]));
        let ja = choose|j: int| 0 <= j < b.len() && b[j] == a[0];
        assert(b[0] <= a[0]);
        assert(b.contains(b[0]));
        assert(a.to_multiset().contains(b[0]));
        assert(a.contains(b[0]));
        let jb = choose|j: int| 0 <= j < a.len() && a[j] == b[0];
        assert(a[0] <= b[0]);
        assert(a[0] == b[0]);
        let a1 = a.drop_first();
        let b1 = b.drop_first();
        assert(a.remove(0) =~= a1);
        assert(b.remove(0) =~= b1);
        assert(a1.to_multiset() =~= a.to_multiset().remove(a[0]));
        assert(b1.to_multiset() =~= b.to_multiset().remove(b[0]));
        assert(sorted(a1) && sorted(b1)) by {
            assert(forall|i: int| 0 <= i < a1.len() ==> #[trigger] a1[i] == a[i + 1]);
            assert(forall|i: int| 0 <= i < b1.len() ==> #[trigger] b1[i] == b[i + 1]);
        }
        lemma_sorted_unique(a1, b1);
        assert(a =~= b) by {
            assert(forall|i: int| 1 <= i < a.len() ==> #[trigger] a[i] == a1[i - 1]);
            assert(forall|i: int| 1 <= i < b.len() ==> #[trigger] b[i] == b1[i - 1]);
        }
    }
}

/// Insertion sort.  Returns the values of `v` in non-decreasing order,
/// preserving the multiset of values exactly.
pub fn sort_values(v: &Vec<u64>) -> (r: Vec<u64>)
    ensures
        r@ == sort_of(v@),
        sorted(r@),
        r@.to_multiset() == v@.to_multiset(),
        r@.len() == v@.len(),
        all_in_field(v@) ==> all_in_field(r@),
{
    let mut r: Vec<u64> = Vec::new();
    let mut i: usize = 0;
    proof {
        assert(v@.subrange(0, 0) =~= Seq::<u64>::empty());
        broadcast use vstd::seq_lib::group_to_multiset_ensures;
    }
    while i < v.len()
        invariant
            i <= v@.len(),
            r@.len() == i,
            sorted(r@),
            r@.to_multiset() == v@.subrange(0, i as int).to_multiset(),
            forall|k: int| 0 <= k < r@.len() ==> in_field(#[trigger] r@[k]) || !all_in_field(v@),
        decreases v@.len() - i,
    {
        let x = v[i];
        let mut j: usize = r.len();
        while j > 0 && r[j - 1] > x
            invariant
                j <= r@.len(),
                forall|k: int| j <= k < r@.len() ==> #[trigger] r@[k] > x,
                sorted(r@),
            decreases j,
        {
            j = j - 1;
        }
        let ghost old_r = r@;
        r.insert(j, x);
        proof {
            broadcast use vstd::seq_lib::group_to_multiset_ensures;
            let pre = old_r.subrange(0, j as int);
            let post = old_r.subrange(j as int, old_r.len() as int);
            assert(r@ =~= pre + (seq![x] + post));
            lemma_multiset_commutative(pre, seq![x] + post);
            lemma_multiset_commutative(seq![x], post);
            lemma_multiset_commutative(pre, post);
            assert(old_r =~= pre + post);
            assert(seq![x].to_multiset() =~= Multiset::<u64>::empty().insert(x)) by {
                assert(seq![x].drop_first() =~= Seq::<u64>::empty());
            }
            assert(r@.to_multiset() =~= old_r.to_multiset().insert(x));
            assert(v@.subrange(0, i + 1) =~= v@.subrange(0, i as int).push(v@[i as int]));
            assert(v@.subrange(0, i + 1).to_multiset()
                =~= v@.subrange(0, i as int).to_multiset().insert(x));
            assert forall|p: int, q: int| 0 <= p <= q < r@.len() implies r@[p] <= r@[q] by {
                if q >= j + 1 && p <= j {
                    assert(old_r[q - 1] > x);
                }
            }
        }
        i = i + 1;
    }
    proof {
        assert(v@.subrange(0, v@.len() as int) =~= v@);
        assert(sorted(r@) && r@.to_multiset() == v@.to_multiset());
        assert(sorted(sort_of(v@)) && sort_of(v@).to_multiset() == v@.to_multiset());
        lemma_sorted_unique(r@, sort_of(v@));
    }
    r
}

} // verus!

//! Three comparison-based in-place sorting algorithms — bubble, selection and
//! insertion sort — over machine integers, each with a copying variant that
//! leaves its input untouched. Every sorter is proved to return a sorted
//! rearrangement of its input.

use vstd::prelude::*;

verus! {

use vstd::relations::sorted_by;
use vstd::relations::total_ordering;
use vstd::seq_lib::lemma_sorted_unique;

/// A sequence is in non-decreasing order.
pub open spec fn sorted(s: Seq<i64>) -> bool {
    forall|i: int, j: int| 0 <= i < j < s.len() ==> s[i] <= s[j]
}

/// Every element strictly before position `m` is at most every element at or
/// after position `m`.
spec fn partitioned_at(s: Seq<i64>, m: int) -> bool {
    forall|k1: int, k2: int| 0 <= k1 < m <= k2 < s.len() ==> s[k1] <= s[k2]
}

/// The suffix of `s` that starts at position `m` is in non-decreasing order.
spec fn sorted_from(s: Seq<i64>, m: int) -> bool {
    forall|k1: int, k2: int| m <= k1 < k2 < s.len() ==> s[k1] <= s[k2]
}

proof fn lemma_swap_keeps_multiset(s: Seq<i64>, i: int, j: int)
    requires
        0 <= i < s.len(),
        0 <= j < s.len(),
    ensures
        s.update(i, s[j]).update(j, s[i]).to_multiset() == s.to_multiset(),
{
    broadcast use vstd::seq_lib::group_to_multiset_ensures;
    broadcast use vstd::seq_lib::to_multiset_update;
    broadcast use vstd::multiset::group_multiset_axioms;

    let s1 = s.update(i, s[j]);
    assert(s1[j] == s[j]);
    assert(s.contains(s[i]));
    assert(s.to_multiset().count(s[i]) > 0);
    assert(s.to_multiset().insert(s[j]).count(s[i]) > 0);
    assert(s1.update(j, s[i]).to_multiset() =~= s.to_multiset());
}

/// Exchanges the elements at positions `i` and `j`.
fn swap(vec: &mut Vec<i64>, i: usize, j: usize)
    requires
        i < old(vec).len(),
        j < old(vec).len(),
    ensures
        final(vec)@ == old(vec)@.update(i as int, old(vec)@[j as int]).update(
            j as int,
            old(vec)@[i as int],
        ),
        final(vec)@.to_multiset() == old(vec)@.to_multiset(),
        final(vec)@.len() == old(vec)@.len(),
{
    proof {
        lemma_swap_keeps_multiset(vec@, i as int, j as int);
    }
    let tmp: i64 = vec[i];
    let vj: i64 = vec[j];
    vec[i] = vj;
    vec[j] = tmp;
}

/// Bubble sort: scans adjacent pairs left to right, swapping each pair that is
/// out of order, and repeats full passes until a pass performs no swap. The
/// result is a sorted rearrangement of the input.
pub fn bubble_inplace(vec: &mut Vec<i64>)
    ensures
        sorted(final(vec)@),
        final(vec)@.to_multiset() == old(vec)@.to_multiset(),
        final(vec)@.len() == old(vec)@.len(),
{
    let n: usize = vec.len();
    if n <= 1 {
        return;
    }
    let ghost mut m: int = n as int;
    let mut did_swap: bool = true;
    while did_swap
        invariant
            vec@.len() == n,
            n == old(vec)@.len(),
            n >= 2,
            vec@.to_multiset() == old(vec)@.to_multiset(),
            0 <= m <= n,
            sorted_from(vec@, m),
            partitioned_at(vec@, m),
            !did_swap ==> sorted(vec@),
            did_swap ==> m >= 1,
        decreases m,
    {
        did_swap = false;
        let mut i: usize = 0;
        while i < n - 1
            invariant
                vec@.len() == n,
                n >= 2,
                i <= n - 1,
                vec@.to_multiset() == old(vec)@.to_multiset(),
                1 <= m <= n,
                sorted_from(vec@, m),
                partitioned_at(vec@, m),
                forall|k: int| 0 <= k <= i ==> vec@[k] <= vec@[i as int],
                i as int >= m - 1 ==> forall|k: int| 0 <= k < m ==> #[trigger] vec@[k] <= vec@[m - 1],
                !did_swap ==> forall|k1: int, k2: int|
                    0 <= k1 < k2 <= i ==> vec@[k1] <= vec@[k2],
                did_swap ==> m >= 2,
            decreases n - 1 - i,
        {
            if vec[i] > vec[i + 1] {
                proof {
                    // The dominated sorted suffix [m, n) never takes part in a
                    // swap: the pair at (m - 1, m) is ordered by the partition,
                    // pairs inside the suffix are ordered by its sortedness.
                    if i as int == m - 1 {
                        assert(vec@[i as int] <= vec@[i + 1]);
                    }
                    if i as int >= m {
                        assert(vec@[i as int] <= vec@[i + 1]);
                    }
                    assert(i + 1 < m);
                }
                swap(vec, i, i + 1);
                did_swap = true;
            }
            i = i + 1;
        }
        proof {
            m = m - 1;
        }
    }
}

/// Returns a sorted copy of `vec`, leaving `vec` itself untouched.
pub fn bubble(vec: &Vec<i64>) -> (r: Vec<i64>)
    ensures
        sorted(r@),
        r@.to_multiset() == vec@.to_multiset(),
        r@.len() == vec@.len(),
{
    let mut new_vec: Vec<i64> = vec.clone();
    proof {
        assert(new_vec@ =~= vec@);
    }
    bubble_inplace(&mut new_vec);
    new_vec
}

/// Selection sort: for each position in turn, swaps the least element of the
/// remaining suffix into that position. The result is a sorted rearrangement
/// of the input.
pub fn selection_inplace(vec: &mut Vec<i64>)
    ensures
        sorted(final(vec)@),
        final(vec)@.to_multiset() == old(vec)@.to_multiset(),
        final(vec)@.len() == old(vec)@.len(),
{
    let n: usize = vec.len();
    if n <= 1 {
        return;
    }
    let mut j: usize = 0;
    while j < n - 1
        invariant
            vec@.len() == n,
            n == old(vec)@.len(),
            n >= 2,
            j <= n - 1,
            vec@.to_multiset() == old(vec)@.to_multiset(),
            forall|k1: int, k2: int| 0 <= k1 < k2 < n && k1 < j ==> vec@[k1] <= vec@[k2],
        decreases n - 1 - j,
    {
        let mut minimum_index: usize = j;
        let mut i: usize = j;
        while i < n
            invariant
                vec@.len() == n,
                j <= minimum_index < n,
                j <= i <= n,
                forall|k: int| j <= k < i ==> vec@[minimum_index as int] <= vec@[k],
            decreases n - i,
        {
            if vec[i] < vec[minimum_index] {
                minimum_index = i;
            }
            i = i + 1;
        }
        if minimum_index != j {
            swap(vec, j, minimum_index);
        }
        j = j + 1;
    }
}

/// Returns a sorted copy of `vec`, leaving `vec` itself untouched.
pub fn selection(vec: &Vec<i64>) -> (r: Vec<i64>)
    ensures
        sorted(r@),
        r@.to_multiset() == vec@.to_multiset(),
        r@.len() == vec@.len(),
{
    let mut new_vec: Vec<i64> = vec.clone();
    proof {
        assert(new_vec@ =~= vec@);
    }
    selection_inplace(&mut new_vec);
    new_vec
}

/// Insertion sort: moves each element left past every strictly greater
/// predecessor. The result is a sorted rearrangement of the input.
pub fn insertion_inplace(vec: &mut Vec<i64>)
    ensures
        sorted(final(vec)@),
        final(vec)@.to_multiset() == old(vec)@.to_multiset(),
        final(vec)@.len() == old(vec)@.len(),
{
    let n: usize = vec.len();
    if n <= 1 {
        return;
    }
    let mut i: usize = 1;
    while i < n
        invariant
            vec@.len() == n,
            n == old(vec)@.len(),
            n >= 2,
            1 <= i <= n,
            vec@.to_multiset() == old(vec)@.to_multiset(),
            forall|k1: int, k2: int| 0 <= k1 < k2 < i ==> vec@[k1] <= vec@[k2],
        decreases n - i,
    {
        let mut j: usize = i;
        while j > 0 && vec[j - 1] > vec[j]
            invariant
                vec@.len() == n,
                n >= 2,
                j <= i < n,
                vec@.to_multiset() == old(vec)@.to_multiset(),
                forall|k1: int, k2: int|
                    0 <= k1 < k2 <= i && k2 != j ==> vec@[k1] <= vec@[k2],
            decreases j,
        {
            swap(vec, j, j - 1);
            j = j - 1;
        }
        proof {
            assert forall|k1: int, k2: int| 0 <= k1 < k2 <= i implies vec@[k1] <= vec@[k2] by {
                if k2 == j && j > 0 {
                    assert(vec@[j - 1] <= vec@[j as int]);
                    if k1 < j - 1 {
                        assert(vec@[k1] <= vec@[j - 1]);
                    }
                }
            }
        }
        i = i + 1;
    }
}

/// Returns a sorted copy of `vec`, leaving `vec` itself untouched.
pub fn insertion(vec: &Vec<i64>) -> (r: Vec<i64>)
    ensures
        sorted(r@),
        r@.to_multiset() == vec@.to_multiset(),
        r@.len() == vec@.len(),
{
    let mut new_vec: Vec<i64> = vec.clone();
    proof {
        assert(new_vec@ =~= vec@);
    }
    insertion_inplace(&mut new_vec);
    new_vec
}

/// A sorted sequence is determined by the multiset of its elements: two sorted
/// sequences with the same elements are equal. Every sorter above returns a
/// sorted sequence with the same elements as its input, so sorting an already
/// sorted sequence — in particular a sorter's own output — returns it
/// unchanged, and all three sorters agree on every input.
pub proof fn lemma_sorted_permutation_equal(a: Seq<i64>, b: Seq<i64>)
    requires
        sorted(a),
        sorted(b),
        a.to_multiset() == b.to_multiset(),
    ensures
        a == b,
{
    let leq = |x: i64, y: i64| x <= y;
    assert(total_ordering(leq)) by {
        assert(vstd::relations::reflexive(leq));
        assert(vstd::relations::antisymmetric(leq));
        assert(vstd::relations::transitive(leq));
        assert(vstd::relations::strongly_connected(leq));
    }
    assert(sorted_by(a, leq));
    assert(sorted_by(b, leq));
    lemma_sorted_unique(a, b, leq);
    assert(a =~= b);
}

} // verus!

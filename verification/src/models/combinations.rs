use itertools::Itertools;
use vstd::prelude::*;

verus! {

/// The `k`-element subsets of `lo..n`, each as an increasing sequence, in
/// lexicographic order.
pub open spec fn combinations_from(lo: int, n: int, k: nat) -> Seq<Seq<usize>>
    decreases n - lo, k,
{
    if k == 0 {
        seq![Seq::empty()]
    } else if lo >= n {
        Seq::empty()
    } else {
        combinations_from(lo + 1, n, (k - 1) as nat).map_values(|c: Seq<usize>| seq![lo as usize] + c)
            + combinations_from(lo + 1, n, k)
    }
}

/// The `k`-element subsets of `0..n` in lexicographic order.
pub open spec fn spec_combinations(n: nat, k: nat) -> Seq<Seq<usize>> {
    combinations_from(0, n as int, k)
}

/// All `k`-element subsets of `0..n`, each as an increasing vector, in
/// lexicographic order.
///
/// Trusted: `itertools::Itertools::combinations` on the range `0..n` yields
/// the `k`-length combinations of its elements in lexicographic order (one
/// empty combination for `k == 0`, none for `k > n`); the result collects them.
#[verifier::external_body]
pub fn combinations_of_range(n: usize, k: usize) -> (combos: Vec<Vec<usize>>)
    ensures
        combos.deep_view() == spec_combinations(n as nat, k as nat),
{
    (0..n).combinations(k).collect()
}

/// Every subset listed has `k` elements, in increasing order, all within
/// `lo..n`.
pub proof fn lemma_combinations_from_shape(lo: int, n: int, k: nat)
    requires
        0 <= lo,
        n <= usize::MAX,
    ensures
        forall|i: int|
            0 <= i < combinations_from(lo, n, k).len() ==> {
                &&& (#[trigger] combinations_from(lo, n, k)[i]).len() == k
                &&& forall|j: int|
                    0 <= j < k ==> lo <= #[trigger] combinations_from(lo, n, k)[i][j] < n
                &&& forall|j1: int, j2: int|
                    0 <= j1 < j2 < k ==> combinations_from(lo, n, k)[i][j1]
                        < combinations_from(lo, n, k)[i][j2]
            },
    decreases n - lo, k,
{
    if k == 0 {
    } else if lo >= n {
    } else {
        lemma_combinations_from_shape(lo + 1, n, (k - 1) as nat);
        lemma_combinations_from_shape(lo + 1, n, k);
        let left = combinations_from(lo + 1, n, (k - 1) as nat).map_values(
            |c: Seq<usize>| seq![lo as usize] + c,
        );
        let right = combinations_from(lo + 1, n, k);
        let all = combinations_from(lo, n, k);
        assert(all == left + right);
        assert forall|i: int| 0 <= i < all.len() implies {
            &&& (#[trigger] all[i]).len() == k
            &&& forall|j: int| 0 <= j < k ==> lo <= #[trigger] all[i][j] < n
            &&& forall|j1: int, j2: int| 0 <= j1 < j2 < k ==> all[i][j1] < all[i][j2]
        } by {
            if i < left.len() {
                let c = combinations_from(lo + 1, n, (k - 1) as nat)[i];
                assert(all[i] == seq![lo as usize] + c);
                assert forall|j: int| 0 <= j < k implies lo <= #[trigger] all[i][j] < n by {
                    if j > 0 {
                        assert(all[i][j] == c[j - 1]);
                    }
                }
                assert forall|j1: int, j2: int| 0 <= j1 < j2 < k implies all[i][j1] < all[i][j2] by {
                    assert(all[i][j2] == c[j2 - 1]);
                    if j1 > 0 {
                        assert(all[i][j1] == c[j1 - 1]);
                    }
                }
            } else {
                assert(all[i] == right[i - left.len()]);
            }
        }
    }
}

/// Every increasing sequence of `k` numbers within `lo..n` is listed.
pub proof fn lemma_combinations_complete(lo: int, n: int, k: nat, c: Seq<usize>)
    requires
        0 <= lo,
        n <= usize::MAX,
        c.len() == k,
        forall|j: int| 0 <= j < k ==> lo <= #[trigger] c[j] < n,
        forall|j1: int, j2: int| 0 <= j1 < j2 < k ==> c[j1] < c[j2],
    ensures
        combinations_from(lo, n, k).contains(c),
    decreases n - lo, k,
{
    if k == 0 {
        assert(c =~= Seq::<usize>::empty());
        assert(combinations_from(lo, n, k)[0] == c);
    } else if lo >= n {
        assert(lo <= c[0] < n);
    } else {
        let left = combinations_from(lo + 1, n, (k - 1) as nat).map_values(
            |x: Seq<usize>| seq![lo as usize] + x,
        );
        let right = combinations_from(lo + 1, n, k);
        let all = combinations_from(lo, n, k);
        assert(all == left + right);
        if c[0] == lo {
            let rest = c.drop_first();
            assert forall|j: int| 0 <= j < k - 1 implies lo + 1 <= #[trigger] rest[j] < n by {
                assert(rest[j] == c[j + 1]);
                assert(c[0] < c[j + 1]);
            }
            assert forall|j1: int, j2: int| 0 <= j1 < j2 < k - 1 implies rest[j1] < rest[j2] by {
                assert(rest[j1] == c[j1 + 1] && rest[j2] == c[j2 + 1]);
            }
            lemma_combinations_complete(lo + 1, n, (k - 1) as nat, rest);
            let shorter = combinations_from(lo + 1, n, (k - 1) as nat);
            let t = choose|t: int| 0 <= t < shorter.len() && #[trigger] shorter[t] == rest;
            assert(left[t] == seq![lo as usize] + rest);
            assert(seq![lo as usize] + rest =~= c);
            assert(all[t] == c);
        } else {
            assert forall|j: int| 0 <= j < k implies lo + 1 <= #[trigger] c[j] < n by {
                if j > 0 {
                    assert(c[0] < c[j]);
                }
            }
            lemma_combinations_complete(lo + 1, n, k, c);
            let t = choose|t: int| 0 <= t < right.len() && #[trigger] right[t] == c;
            assert(all[left.len() + t] == c);
        }
    }
}

/// The `k`-element multisets of `lo..n`, each as a non-decreasing sequence,
/// in lexicographic order.
pub open spec fn multisets_from(lo: int, n: int, k: nat) -> Seq<Seq<usize>>
    decreases n - lo, k,
{
    if k == 0 {
        seq![Seq::empty()]
    } else if lo >= n {
        Seq::empty()
    } else {
        multisets_from(lo, n, (k - 1) as nat).map_values(|c: Seq<usize>| seq![lo as usize] + c)
            + multisets_from(lo + 1, n, k)
    }
}

/// The `k`-element multisets of `0..n` in lexicographic order.
pub open spec fn spec_multisets(n: nat, k: nat) -> Seq<Seq<usize>> {
    multisets_from(0, n as int, k)
}

/// All `k`-element multisets of `0..n`, each as a non-decreasing vector, in
/// lexicographic order.
///
/// Trusted: `itertools::Itertools::combinations_with_replacement` on the range
/// `0..n` yields the `k`-length combinations with repetition of its elements in
/// lexicographic order (one empty combination for `k == 0`); the result
/// collects them.
#[verifier::external_body]
pub fn multisets_of_range(n: usize, k: usize) -> (multisets: Vec<Vec<usize>>)
    ensures
        multisets.deep_view() == spec_multisets(n as nat, k as nat),
{
    (0..n).combinations_with_replacement(k).collect()
}

/// Every multiset listed has `k` elements, all within `lo..n`.
pub proof fn lemma_multisets_from_shape(lo: int, n: int, k: nat)
    requires
        0 <= lo,
        n <= usize::MAX,
    ensures
        forall|i: int|
            0 <= i < multisets_from(lo, n, k).len() ==> {
                &&& (#[trigger] multisets_from(lo, n, k)[i]).len() == k
                &&& forall|j: int|
                    0 <= j < k ==> lo <= #[trigger] multisets_from(lo, n, k)[i][j] < n
            },
    decreases n - lo, k,
{
    if k == 0 {
    } else if lo >= n {
    } else {
        lemma_multisets_from_shape(lo, n, (k - 1) as nat);
        lemma_multisets_from_shape(lo + 1, n, k);
        let left = multisets_from(lo, n, (k - 1) as nat).map_values(
            |c: Seq<usize>| seq![lo as usize] + c,
        );
        let right = multisets_from(lo + 1, n, k);
        let all = multisets_from(lo, n, k);
        assert(all == left + right);
        assert forall|i: int| 0 <= i < all.len() implies {
            &&& (#[trigger] all[i]).len() == k
            &&& forall|j: int| 0 <= j < k ==> lo <= #[trigger] all[i][j] < n
        } by {
            if i < left.len() {
                let c = multisets_from(lo, n, (k - 1) as nat)[i];
                assert(all[i] == seq![lo as usize] + c);
                assert forall|j: int| 0 <= j < k implies lo <= #[trigger] all[i][j] < n by {
                    if j > 0 {
                        assert(all[i][j] == c[j - 1]);
                    }
                }
            } else {
                assert(all[i] == right[i - left.len()]);
            }
        }
    }
}

} // verus!

//! Arithmetic mean and median of a sequence of integers.
use vstd::prelude::*;
use vstd::relations::{sorted_by, total_ordering};
use vstd::seq_lib::lemma_sorted_unique;

verus! {

broadcast use vstd::seq_lib::group_to_multiset_ensures, vstd::multiset::group_multiset_axioms;

/// Integer division that rounds toward zero, as Rust's `/` does (for a positive divisor).
pub open spec fn div_toward_zero(a: int, b: int) -> int {
    if a >= 0 {
        a / b
    } else {
        -((-a) / b)
    }
}

/// The ascending order on `i64`.
pub open spec fn ascending() -> spec_fn(i64, i64) -> bool {
    |a: i64, b: i64| a <= b
}

/// The middle element of a sorted, non-empty sequence of odd length, or the mean of the
/// two middle elements (rounded toward zero) for an even length.
pub open spec fn median_of_sorted(s: Seq<i64>) -> i64 {
    let mid = s.len() / 2;
    if s.len() % 2 == 1 {
        s[mid as int]
    } else {
        div_toward_zero(s[mid as int] + s[mid - 1], 2) as i64
    }
}

/// What `median` returns for the values `s`: nothing for no values, else the median of
/// `s` in ascending order.
pub open spec fn median_spec(s: Seq<i64>) -> Option<i64> {
    if s.len() == 0 {
        None
    } else {
        Some(median_of_sorted(s.sort_by(ascending())))
    }
}

proof fn lemma_ascending_total()
    ensures
        total_ordering(ascending()),
{
}

/// Sorts `v` ascending, in place, by insertion.
fn sort_ascending(v: &mut Vec<i64>)
    ensures
        final(v)@.to_multiset() == old(v)@.to_multiset(),
        sorted_by(final(v)@, ascending()),
{
    let n: usize = v.len();
    let mut i: usize = 1;
    while i < n
        invariant
            n == v@.len(),
            1 <= i,
            n > 0 ==> i <= n,
            v@.to_multiset() == old(v)@.to_multiset(),
            forall|a: int, b: int| 0 <= a < b < i ==> v@[a] <= v@[b],
        decreases n - i,
    {
        let mut j: usize = i;
        while j > 0 && v[j - 1] > v[j]
            invariant
                n == v@.len(),
                0 <= j <= i < n,
                v@.to_multiset() == old(v)@.to_multiset(),
                forall|a: int, b: int| 0 <= a < b <= i && a != j && b != j ==> v@[a] <= v@[b],
                forall|k: int| j < k <= i ==> v@[j as int] <= v@[k],
            decreases j,
        {
            let x = v[j - 1];
            let y = v[j];
            v.set(j - 1, y);
            v.set(j, x);
            j = j - 1;
        }
        i = i + 1;
    }
}

/// Sorts `v` ascending in place, then returns its median: the middle element for an odd
/// length, the mean of the two middle elements (rounded toward zero) for an even length,
/// and nothing for an empty `v`.
pub fn median(v: &mut Vec<i64>) -> (r: Option<i64>)
    ensures
        final(v)@ == old(v)@.sort_by(ascending()),
        final(v)@.to_multiset() == old(v)@.to_multiset(),
        sorted_by(final(v)@, ascending()),
        r == median_spec(old(v)@),
        r == (if old(v)@.len() == 0 { None } else { Some(median_of_sorted(final(v)@)) }),
        r is None <==> old(v)@.len() == 0,
{
    sort_ascending(v);
    proof {
        lemma_ascending_total();
        old(v)@.lemma_sort_by_ensures(ascending());
        lemma_sorted_unique(v@, old(v)@.sort_by(ascending()), ascending());
        assert(v@.len() == old(v)@.len()) by {
            assert(v@.to_multiset().len() == old(v)@.to_multiset().len());
        }
    }
    let n = v.len();
    if n == 0 {
        None
    } else {
        let mid = n / 2;
        if n % 2 == 1 {
            Some(v[mid])
        } else {
            let total: i128 = v[mid] as i128 + v[mid - 1] as i128;
            let half: i128 = if total >= 0 { total / 2 } else { -((-total) / 2) };
            assert(half == div_toward_zero(v@[mid as int] + v@[mid - 1], 2));
            Some(half as i64)
        }
    }
}

/// Sorting is stable under repetition: once `median` has sorted the values, sorting them
/// again changes nothing, so a second call on the sorted copy returns the same result.
pub proof fn lemma_median_twice(s: Seq<i64>)
    ensures
        s.sort_by(ascending()).sort_by(ascending()) == s.sort_by(ascending()),
        median_spec(s.sort_by(ascending())) == median_spec(s),
{
    let t = s.sort_by(ascending());
    lemma_ascending_total();
    s.lemma_sort_by_ensures(ascending());
    t.lemma_sort_by_ensures(ascending());
    lemma_sorted_unique(t.sort_by(ascending()), t, ascending());
    assert(t.len() == s.len()) by {
        assert(t.to_multiset().len() == s.to_multiset().len());
    }
}

/// The sum of all values of `s`.
pub open spec fn seq_sum(s: Seq<i64>) -> int
    decreases s.len(),
{
    if s.len() == 0 {
        0
    } else {
        seq_sum(s.drop_last()) + s.last()
    }
}

/// Every running total of `s`, taken from the front, is an `i64`.
pub open spec fn sum_fits(s: Seq<i64>) -> bool {
    forall|k: int| 0 <= k <= s.len() ==> i64::MIN <= #[trigger] seq_sum(s.take(k)) <= i64::MAX
}

/// What `mean` returns for the values `s`: the sum divided by the count, rounded toward
/// zero; the sum itself (zero) when there are no values; nothing when the count is not an
/// `i64`.
pub open spec fn mean_spec(s: Seq<i64>) -> Option<i64> {
    if s.len() > i64::MAX {
        None
    } else if s.len() == 0 {
        Some(seq_sum(s) as i64)
    } else {
        Some(div_toward_zero(seq_sum(s), s.len() as int) as i64)
    }
}

/// Relies on num's `FromPrimitive::from_usize` for `i64`: the count itself when it is at
/// most `i64::MAX`, else nothing.
#[verifier::external_body]
fn count_as_i64(n: usize) -> (r: Option<i64>)
    ensures
        r == (if n <= i64::MAX { Some(n as i64) } else { None::<i64> }),
{
    <i64 as num::FromPrimitive>::from_usize(n)
}

/// Arithmetic mean of `v`, with the division rounded toward zero.
pub fn mean(v: &[i64]) -> (r: Option<i64>)
    requires
        sum_fits(v@),
    ensures
        r == mean_spec(v@),
{
    let mut sum: i64 = 0;
    let mut i: usize = 0;
    while i < v.len()
        invariant
            i <= v@.len(),
            sum_fits(v@),
            sum == seq_sum(v@.take(i as int)),
        decreases v@.len() - i,
    {
        assert(v@.take(i + 1).drop_last() =~= v@.take(i as int));
        assert(i64::MIN <= seq_sum(v@.take(i + 1)) <= i64::MAX);
        sum = sum + v[i];
        i = i + 1;
    }
    assert(v@.take(v@.len() as int) =~= v@);
    match count_as_i64(v.len()) {
        None => None,
        Some(count) => {
            if count == 0 {
                Some(sum)
            } else {
                let total: i128 = sum as i128;
                let c: i128 = count as i128;
                let q: i128 = if total >= 0 { total / c } else { -((-total) / c) };
                assert(q == div_toward_zero(seq_sum(v@), v@.len() as int));
                assert(i64::MIN <= q <= i64::MAX) by (nonlinear_arith)
                    requires
                        q == div_toward_zero(total as int, c as int),
                        i64::MIN <= total <= i64::MAX,
                        c >= 1,
                {
                }
                Some(q as i64)
            }
        }
    }
}

} // verus!

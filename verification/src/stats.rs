//! The statistics engine: descriptive statistics and outlier detection over
//! a collection of per-file entropy results.
//!
//! Every function takes the collection by shared reference and leaves it
//! untouched: sorting always works on a fresh copy. Each function answers
//! `None` for an empty collection and `Some` otherwise; an empty collection
//! has no mean, median, variance or quartiles, and that absence is
//! signalled, never encoded as a default number.

use vstd::prelude::*;

verus! {

use vstd::relations::sorted_by;
use vstd::seq_lib::lemma_sorted_unique;

use crate::structs::{FileEntropy, Stats, wf_entropies};
use crate::{lemma_sum_of_bounds, sum_of, ENTROPY_SCALE, MAX_ENTROPY_MILLIBITS};

/// Saves the first quartile, the third quartile, and the interquartile
/// range (`iqr == q3 - q1`), all in millibits per byte.
#[derive(Debug)]
pub struct IQR {
    pub q1: u64,
    pub q3: u64,
    pub iqr: u64,
}

/// The entropy values of the entries, as mathematical integers.
pub open spec fn entropy_values(s: Seq<FileEntropy>) -> Seq<int> {
    s.map_values(|e: FileEntropy| e.entropy as int)
}

/// The entropy values of the entries, in ascending order.
pub open spec fn sorted_entropy_values(s: Seq<FileEntropy>) -> Seq<int> {
    entropy_values(s).sort()
}

/// The entries stand in ascending order of entropy.
pub open spec fn sorted_by_entropy(s: Seq<FileEntropy>) -> bool {
    forall|i: int, j: int|
        0 <= i <= j < s.len() ==> #[trigger] s[i].entropy <= #[trigger] s[j].entropy
}

/// The entries of `s` whose entropy equals `v`, in their original order.
/// Sorting is stable exactly when it preserves this sequence for every
/// value `v`.
pub open spec fn entries_with(s: Seq<FileEntropy>, v: u64) -> Seq<FileEntropy> {
    s.filter(|e: FileEntropy| e.entropy == v)
}

/// The mean entropy: the sum of the values divided by their number
/// (fixed-point division truncates toward zero).
pub open spec fn mean_spec(s: Seq<FileEntropy>) -> int
    recommends
        s.len() > 0,
{
    sum_of(entropy_values(s)) / (s.len() as int)
}

/// The median entropy: the middle value of the sorted sequence, or, for an
/// even count, the average of the two values adjacent to the midpoint.
pub open spec fn median_spec(s: Seq<FileEntropy>) -> int
    recommends
        s.len() > 0,
{
    let sv = sorted_entropy_values(s);
    let mid = s.len() as int / 2;
    if s.len() % 2 == 0 {
        (sv[mid - 1] + sv[mid]) / 2
    } else {
        sv[mid]
    }
}

/// The squared deviations of the values from `m`.
pub open spec fn squared_deviations(vals: Seq<int>, m: int) -> Seq<int> {
    vals.map_values(|v: int| (v - m) * (v - m))
}

/// The population variance: the mean of the squared deviations from the
/// mean. The sum of squared deviations is divided by the full count (not
/// `count - 1`), and the quotient is scaled back from squared millibits to
/// millibits (fixed-point division truncates).
pub open spec fn variance_spec(s: Seq<FileEntropy>) -> int
    recommends
        s.len() > 0,
{
    sum_of(squared_deviations(entropy_values(s), mean_spec(s))) / (s.len() as int
        * ENTROPY_SCALE as int)
}

/// The 1-based position of the first quartile in the sorted sequence:
/// `count / 4` for an even count, `(count + 1) / 4` for an odd one. The
/// third quartile sits at three times this position. This discrete
/// estimator asks for at least three values; with one or two the first
/// quartile position degenerates to zero, which points below the sequence.
pub open spec fn q1_position(len: int) -> int {
    if len % 2 == 0 {
        len / 4
    } else {
        (len + 1) / 4
    }
}

/// The first quartile: the sorted value at the 1-based position
/// [`q1_position`].
pub open spec fn q1_spec(s: Seq<FileEntropy>) -> int
    recommends
        s.len() >= 3,
{
    sorted_entropy_values(s)[q1_position(s.len() as int) - 1]
}

/// The third quartile: the sorted value at three times the first
/// quartile's 1-based position.
pub open spec fn q3_spec(s: Seq<FileEntropy>) -> int
    recommends
        s.len() >= 3,
{
    sorted_entropy_values(s)[3 * q1_position(s.len() as int) - 1]
}

/// The interquartile range: the distance between the quartiles.
pub open spec fn iqr_spec(s: Seq<FileEntropy>) -> int
    recommends
        s.len() >= 3,
{
    q3_spec(s) - q1_spec(s)
}

/// Whether an entry's entropy falls outside the acceptance band
/// `(q1 - 1.5*q1, q3 + 1.5*iqr)`: at most the lower bound or at least the
/// upper one. Both comparisons are doubled so they stay in integers. The
/// lower bound deliberately subtracts `1.5 * q1` (not `1.5 * iqr`) from
/// `q1`; as entropy is never negative it can only be met when both the
/// entry's entropy and `q1` are zero.
pub open spec fn is_outlier(e: FileEntropy, q1: int, q3: int, iqr: int) -> bool {
    ||| 2 * (e.entropy as int) <= 2 * q1 - 3 * q1
    ||| 2 * (e.entropy as int) >= 2 * q3 + 3 * iqr
}

/// The entries of `s` that lie outside the acceptance band derived from
/// the quartiles of `s`, in their original order.
pub open spec fn outliers_of(s: Seq<FileEntropy>) -> Seq<FileEntropy> {
    s.filter(|e: FileEntropy| is_outlier(e, q1_spec(s), q3_spec(s), iqr_spec(s)))
}

/// Every sorted entropy value is one of the collection's entropy values,
/// so it inherits their range.
proof fn lemma_sorted_value_in_range(s: Seq<FileEntropy>, k: int)
    requires
        wf_entropies(s),
        0 <= k < s.len(),
    ensures
        0 <= sorted_entropy_values(s)[k] <= MAX_ENTROPY_MILLIBITS as int,
{
    broadcast use vstd::seq_lib::group_to_multiset_ensures;

    let evs = entropy_values(s);
    evs.lemma_sort_ensures();
    let sv = sorted_entropy_values(s);
    assert(sv.len() == evs.len()) by {
        assert(sv.to_multiset().len() == sv.len());
        assert(evs.to_multiset().len() == evs.len());
    }
    assert(sv.contains(sv[k]));
    assert(sv.to_multiset().count(sv[k]) > 0);
    assert(evs.contains(sv[k]));
    let j = choose|j: int| 0 <= j < evs.len() && evs[j] == sv[k];
    assert(crate::structs::wf_entropy(s[j]));
    assert(evs[j] == s[j].entropy as int);
}

/// The summary figures respect the entropy range: over well-formed
/// entries (entropy at most 8 bits per byte) the mean and the median are
/// themselves entropy values in `[0, 8]` bits per byte, and wherever the
/// quartiles are defined they are ordered entropy values from the same
/// range, so the interquartile range is never negative.
pub proof fn lemma_stats_in_entropy_range(s: Seq<FileEntropy>)
    requires
        wf_entropies(s),
        s.len() > 0,
    ensures
        0 <= mean_spec(s) <= MAX_ENTROPY_MILLIBITS as int,
        0 <= median_spec(s) <= MAX_ENTROPY_MILLIBITS as int,
        s.len() >= 3 ==> 0 <= q1_spec(s) <= q3_spec(s) <= MAX_ENTROPY_MILLIBITS as int,
        s.len() >= 3 ==> iqr_spec(s) >= 0,
{
    let evs = entropy_values(s);
    let len = s.len() as int;
    assert(forall|k: int|
        0 <= k < evs.len() ==> 0 <= #[trigger] evs[k] <= MAX_ENTROPY_MILLIBITS as int) by {
        assert(forall|k: int|
            0 <= k < s.len() ==> crate::structs::wf_entropy(#[trigger] s[k]));
    }
    lemma_sum_of_bounds(evs, 0, MAX_ENTROPY_MILLIBITS as int);
    vstd::arithmetic::div_mod::lemma_multiply_divide_le(
        sum_of(evs),
        len,
        MAX_ENTROPY_MILLIBITS as int,
    );
    vstd::arithmetic::div_mod::lemma_div_pos_is_pos(sum_of(evs), len);
    let mid = len / 2;
    lemma_sorted_value_in_range(s, mid);
    if len % 2 == 0 {
        lemma_sorted_value_in_range(s, mid - 1);
    }
    if s.len() >= 3 {
        let p = q1_position(len);
        assert(1 <= p && 3 * p <= len);
        lemma_sorted_value_in_range(s, p - 1);
        lemma_sorted_value_in_range(s, 3 * p - 1);
        evs.lemma_sort_ensures();
        assert(sorted_entropy_values(s).len() == evs.len()) by {
            broadcast use vstd::seq_lib::group_to_multiset_ensures;

            assert(sorted_entropy_values(s).to_multiset().len() == sorted_entropy_values(s).len());
            assert(evs.to_multiset().len() == evs.len());
        }
        let leq = |x: int, y: int| x <= y;
        assert(leq(sorted_entropy_values(s)[p - 1], sorted_entropy_values(s)[3 * p - 1])) by {
            if p - 1 < 3 * p - 1 {
                assert(sorted_by(sorted_entropy_values(s), leq));
            }
        }
    }
}

/// Two collections holding the same entries hold the same entropy values.
proof fn lemma_entropy_values_multiset(a: Seq<FileEntropy>, b: Seq<FileEntropy>)
    requires
        a.to_multiset() == b.to_multiset(),
    ensures
        entropy_values(a).to_multiset() == entropy_values(b).to_multiset(),
    decreases a.len(),
{
    broadcast use vstd::seq_lib::group_to_multiset_ensures;

    assert(a.to_multiset().len() == a.len());
    assert(b.to_multiset().len() == b.len());
    if a.len() == 0 {
        assert(b.len() == 0);
        assert(entropy_values(a) =~= entropy_values(b));
    } else {
        let x = a.last();
        assert(a.to_multiset().contains(x)) by {
            assert(a.contains(x));
        }
        assert(b.contains(x));
        let i = choose|i: int| 0 <= i < b.len() && b[i] == x;
        let a1 = a.drop_last();
        let b1 = b.remove(i);
        assert(a1.to_multiset() =~= b1.to_multiset()) by {
            assert(a =~= a1.push(x));
            assert(a1.push(x).to_multiset() == a1.to_multiset().insert(x));
            assert(b1.to_multiset() == b.to_multiset().remove(x));
        }
        lemma_entropy_values_multiset(a1, b1);
        assert(entropy_values(a) =~= entropy_values(a1).push(x.entropy as int));
        assert(entropy_values(b1) =~= entropy_values(b).remove(i));
        assert(entropy_values(b)[i] == x.entropy as int);
        assert(entropy_values(a).to_multiset() == entropy_values(a1).to_multiset().insert(
            x.entropy as int,
        ));
        assert(entropy_values(b1).to_multiset() == entropy_values(b).to_multiset().remove(
            x.entropy as int,
        ));
        assert(entropy_values(b).to_multiset().contains(x.entropy as int)) by {
            assert(entropy_values(b).contains(x.entropy as int));
        }
        assert(entropy_values(a).to_multiset() =~= entropy_values(b).to_multiset());
    }
}

/// A collection sorted ascending by entropy carries exactly the canonical
/// sorted value sequence of any collection holding the same entries.
proof fn lemma_sorted_entropy_values(s: Seq<FileEntropy>, r: Seq<FileEntropy>)
    requires
        sorted_by_entropy(r),
        r.to_multiset() == s.to_multiset(),
    ensures
        entropy_values(r) == sorted_entropy_values(s),
{
    let leq = |x: int, y: int| x <= y;
    entropy_values(s).lemma_sort_ensures();
    lemma_entropy_values_multiset(r, s);
    assert(sorted_by(entropy_values(r), leq)) by {
        assert(forall|i: int|
            0 <= i < r.len() ==> entropy_values(r)[i] == #[trigger] r[i].entropy as int);
    }
    lemma_sorted_unique(entropy_values(r), sorted_entropy_values(s), leq);
}

/// Sorts a copy of the collection ascending by entropy value.
///
/// The caller's collection is borrowed immutably and never changed: the
/// result is a fresh vector holding the same entries (as a multiset),
/// rearranged so that their entropy values are the canonical ascending
/// value sequence.
pub fn sort_entropies(entropies: &Vec<FileEntropy>) -> (r: Vec<FileEntropy>)
    ensures
        r@.len() == entropies@.len(),
        r@.to_multiset() == entropies@.to_multiset(),
        sorted_by_entropy(r@),
        entropy_values(r@) == sorted_entropy_values(entropies@),
        forall|v: u64| #[trigger] entries_with(r@, v) == entries_with(entropies@, v),
{
    broadcast use vstd::seq_lib::group_to_multiset_ensures;

    let mut r: Vec<FileEntropy> = Vec::new();
    let mut idx: usize = 0;
    proof {
        assert(entropies@.take(0) =~= Seq::<FileEntropy>::empty());
        assert(r@.to_multiset() =~= entropies@.take(0).to_multiset());
        assert forall|v: u64| #[trigger] entries_with(r@, v) == entries_with(
            entropies@.take(0),
            v,
        ) by {
            reveal(Seq::filter);
        }
    }
    while idx < entropies.len()
        invariant
            idx <= entropies@.len(),
            r@.len() == idx,
            sorted_by_entropy(r@),
            r@.to_multiset() == entropies@.take(idx as int).to_multiset(),
            forall|v: u64| #[trigger] entries_with(r@, v) == entries_with(
                entropies@.take(idx as int),
                v,
            ),
        decreases entropies@.len() - idx,
    {
        let e = entropies[idx].clone();
        let mut p: usize = 0;
        while p < r.len() && r[p].entropy <= e.entropy
            invariant
                p <= r@.len(),
                forall|k: int| 0 <= k < p ==> #[trigger] r@[k].entropy <= e.entropy,
            decreases r@.len() - p,
        {
            p = p + 1;
        }
        let ghost pre = r@;
        r.insert(p, e);
        proof {
            vstd::seq_lib::to_multiset_insert(pre, p as int, e);
            assert(r@.to_multiset() == pre.to_multiset().insert(e));
            let t0 = entropies@.take(idx as int);
            let t1 = entropies@.take(idx + 1);
            assert(t1 =~= t0.push(e));
            vstd::seq_lib::to_multiset_build(t0, e);
            assert(t1.to_multiset() == t0.to_multiset().insert(e));
        }
        proof {
            assert forall|i: int, j: int| 0 <= i <= j < r@.len() implies #[trigger] r@[i].entropy
                <= #[trigger] r@[j].entropy by {
                if j == p as int {
                    if i < j {
                        assert(r@[i].entropy <= e.entropy);
                    }
                } else if i == p as int {
                    assert(r@[j].entropy > e.entropy);
                }
            }
        }
        proof {
            // Stability: the entry goes in after every entry of equal or
            // smaller entropy and before every strictly greater one, so
            // for each entropy value the original order is kept.
            let t0 = entropies@.take(idx as int);
            let t1 = entropies@.take(idx + 1);
            let sub1 = pre.subrange(0, p as int);
            let sub2 = pre.subrange(p as int, pre.len() as int);
            assert(forall|k: int|
                0 <= k < sub2.len() ==> #[trigger] sub2[k].entropy > e.entropy) by {
                if p < pre.len() {
                    assert(pre[p as int].entropy > e.entropy);
                    assert(forall|k: int|
                        p + 1 <= k < pre.len() ==> pre[p as int].entropy <= (
                        #[trigger] pre[k]).entropy);
                }
            }
            assert forall|v: u64| #[trigger] entries_with(r@, v) == entries_with(t1, v) by {
                reveal(Seq::filter);
                let pv = |e: FileEntropy| e.entropy == v;
                assert(entries_with(pre, v) == entries_with(t0, v));
                assert(entries_with(pre, v) == pre.filter(pv));
                assert(entries_with(t0, v) == t0.filter(pv));
                assert(Seq::<FileEntropy>::empty().filter(pv) =~= Seq::<FileEntropy>::empty());
                assert(pre =~= sub1 + sub2);
                assert(r@ =~= sub1 + (seq![e] + sub2));
                Seq::filter_distributes_over_add(sub1, sub2, pv);
                Seq::filter_distributes_over_add(sub1, seq![e] + sub2, pv);
                Seq::filter_distributes_over_add(seq![e], sub2, pv);
                assert(seq![e].drop_last() =~= Seq::<FileEntropy>::empty());
                assert(t1.drop_last() =~= t0);
                assert(t1.last() == e);
                if e.entropy == v {
                    sub2.lemma_all_neg_filter_empty(pv);
                    assert(sub2.filter(pv) =~= Seq::<FileEntropy>::empty());
                    assert(seq![e].filter(pv) =~= Seq::<FileEntropy>::empty().push(e));
                    assert(r@.filter(pv) =~= sub1.filter(pv).push(e));
                    assert(pre.filter(pv) =~= sub1.filter(pv));
                    assert(t1.filter(pv) =~= t0.filter(pv).push(e));
                    assert(pre.filter(pv) == t0.filter(pv));
                } else {
                    assert(seq![e].filter(pv) =~= Seq::<FileEntropy>::empty());
                    assert(r@.filter(pv) =~= sub1.filter(pv) + sub2.filter(pv));
                    assert(pre.filter(pv) =~= sub1.filter(pv) + sub2.filter(pv));
                    assert(t1.filter(pv) =~= t0.filter(pv));
                    assert(pre.filter(pv) == t0.filter(pv));
                }
            }
        }
        idx = idx + 1;
    }
    proof {
        assert(entropies@.take(entropies@.len() as int) =~= entropies@);
        lemma_sorted_entropy_values(entropies@, r@);
    }
    r
}

/// The arithmetic mean of the entropy values, or `None` for an empty
/// collection.
pub fn mean(entropies: &Vec<FileEntropy>) -> (r: Option<u64>)
    ensures
        r is Some <==> entropies@.len() > 0,
        r matches Some(m) ==> m == mean_spec(entropies@),
{
    if entropies.len() == 0 {
        return None;
    }
    let ghost evs = entropy_values(entropies@);
    let mut sum: u128 = 0;
    let mut i: usize = 0;
    proof {
        assert(evs.take(0) =~= Seq::<int>::empty());
    }
    while i < entropies.len()
        invariant
            i <= entropies@.len(),
            evs == entropy_values(entropies@),
            sum == sum_of(evs.take(i as int)),
        decreases entropies@.len() - i,
    {
        proof {
            let t0 = evs.take(i as int);
            let t1 = evs.take(i + 1);
            assert(t1.drop_last() =~= t0);
            assert(t1.last() == entropies@[i as int].entropy as int);
            assert(forall|k: int| 0 <= k < t1.len() ==> 0 <= #[trigger] t1[k] <= u64::MAX as int);
            lemma_sum_of_bounds(t1, 0, u64::MAX as int);
            assert(t1.len() * (u64::MAX as int) <= (u64::MAX as int) * (u64::MAX as int))
                by (nonlinear_arith)
                requires
                    0 <= t1.len() <= u64::MAX as int,
            ;
        }
        sum = sum + (entropies[i].entropy as u128);
        i = i + 1;
    }
    proof {
        assert(evs.take(entropies@.len() as int) =~= evs);
        lemma_sum_of_bounds(evs, 0, u64::MAX as int);
        vstd::arithmetic::div_mod::lemma_multiply_divide_le(
            sum as int,
            entropies@.len() as int,
            u64::MAX as int,
        );
        vstd::arithmetic::div_mod::lemma_div_pos_is_pos(sum as int, entropies@.len() as int);
    }
    Some((sum / (entropies.len() as u128)) as u64)
}

/// The median of the entropy values, or `None` for an empty collection.
///
/// The collection is sorted ascending on a copy; for an even count the two
/// values adjacent to the zero-based midpoint `count / 2` are averaged.
pub fn median(entropies: &Vec<FileEntropy>) -> (r: Option<u64>)
    ensures
        r is Some <==> entropies@.len() > 0,
        r matches Some(m) ==> m == median_spec(entropies@),
{
    if entropies.len() == 0 {
        return None;
    }
    let sorted = sort_entropies(entropies);
    let len = sorted.len();
    let ghost sv = sorted_entropy_values(entropies@);
    proof {
        assert(forall|k: int|
            0 <= k < sorted@.len() ==> sv[k] == #[trigger] sorted@[k].entropy as int);
    }
    if len % 2 == 0 {
        let a = sorted[len / 2 - 1].entropy;
        let b = sorted[len / 2].entropy;
        let m = (((a as u128) + (b as u128)) / 2) as u64;
        proof {
            assert((a as int + b as int) / 2 <= u64::MAX as int);
            assert((a as int + b as int) / 2 >= 0);
        }
        Some(m)
    } else {
        Some(sorted[len / 2].entropy)
    }
}

/// Entropy values small enough that a squared deviation from the mean
/// cannot overflow the machine arithmetic. Every collection of true
/// entropy values (at most 8000 millibits) satisfies this with room to
/// spare; see [`lemma_wf_entropies_are_bounded`].
pub open spec fn bounded_entropies(s: Seq<FileEntropy>) -> bool {
    forall|i: int| 0 <= i < s.len() ==> (#[trigger] s[i]).entropy <= u32::MAX
}

/// A well-formed collection (entropy in `[0, 8]` bits per byte) is far
/// below the machine bound of [`bounded_entropies`].
pub proof fn lemma_wf_entropies_are_bounded(s: Seq<FileEntropy>)
    requires
        wf_entropies(s),
    ensures
        bounded_entropies(s),
{
    assert(forall|i: int|
        0 <= i < s.len() ==> crate::structs::wf_entropy(#[trigger] s[i]));
}

/// The population variance of the entropy values, or `None` for an empty
/// collection.
pub fn variance(entropies: &Vec<FileEntropy>) -> (r: Option<u64>)
    requires
        bounded_entropies(entropies@),
    ensures
        r is Some <==> entropies@.len() > 0,
        r matches Some(v) ==> v == variance_spec(entropies@),
{
    let m: u64 = match mean(entropies) {
        Some(m) => m,
        None => {
            return None;
        },
    };
    let ghost evs = entropy_values(entropies@);
    let ghost devs = squared_deviations(evs, m as int);
    proof {
        assert(forall|k: int|
            0 <= k < evs.len() ==> 0 <= #[trigger] evs[k] <= u32::MAX as int) by {
            assert(forall|k: int|
                0 <= k < entropies@.len() ==> (#[trigger] entropies@[k]).entropy
                    <= u32::MAX);
        }
        lemma_sum_of_bounds(evs, 0, u32::MAX as int);
        vstd::arithmetic::div_mod::lemma_multiply_divide_le(
            sum_of(evs),
            evs.len() as int,
            u32::MAX as int,
        );
        vstd::arithmetic::div_mod::lemma_div_pos_is_pos(sum_of(evs), evs.len() as int);
        assert(0 <= m as int <= u32::MAX as int);
        assert(devs.take(0) =~= Seq::<int>::empty());
    }
    let mut sumsq: u128 = 0;
    let mut i: usize = 0;
    while i < entropies.len()
        invariant
            i <= entropies@.len(),
            bounded_entropies(entropies@),
            evs == entropy_values(entropies@),
            devs == squared_deviations(evs, m as int),
            m <= u32::MAX,
            sumsq == sum_of(devs.take(i as int)),
            sumsq <= i * 0xFFFFFFFE00000001,
        decreases entropies@.len() - i,
    {
        let e = entropies[i].entropy;
        proof {
            assert((entropies@[i as int]).entropy <= u32::MAX);
        }
        let d: u64 = if e >= m {
            e - m
        } else {
            m - e
        };
        proof {
            let t0 = devs.take(i as int);
            let t1 = devs.take(i + 1);
            assert(t1.drop_last() =~= t0);
            assert(evs[i as int] == entropies@[i as int].entropy as int);
            assert(t1.last() == (evs[i as int] - m as int) * (evs[i as int] - m as int));
            assert((evs[i as int] - m as int) * (evs[i as int] - m as int) == (d as int) * (
            d as int)) by (nonlinear_arith)
                requires
                    evs[i as int] - m as int == d as int || evs[i as int] - m as int == -(
                    d as int),
            ;
            assert((d as int) * (d as int) <= 0xFFFFFFFE00000001) by (nonlinear_arith)
                requires
                    0 <= d as int <= u32::MAX as int,
            ;
            assert(0 <= (d as int) * (d as int)) by (nonlinear_arith);
            assert((i + 1) * 0xFFFFFFFE00000001 == i * 0xFFFFFFFE00000001
                + 0xFFFFFFFE00000001) by (nonlinear_arith);
            assert((i + 1) * 0xFFFFFFFE00000001 <= (u64::MAX as int)
                * 0xFFFFFFFE00000001) by (nonlinear_arith)
                requires
                    0 <= i + 1 <= u64::MAX as int,
            ;
        }
        sumsq = sumsq + (d as u128) * (d as u128);
        i = i + 1;
    }
    let denom: u128 = (entropies.len() as u128) * (ENTROPY_SCALE as u128);
    proof {
        let len = entropies@.len() as int;
        assert(devs.take(len) =~= devs);
        assert(len * 0xFFFFFFFE00000001 <= (len * ENTROPY_SCALE as int)
            * 18446744065119618) by (nonlinear_arith)
            requires
                len >= 0,
                ENTROPY_SCALE as int == 1000,
        ;
        vstd::arithmetic::div_mod::lemma_multiply_divide_le(
            sumsq as int,
            len * ENTROPY_SCALE as int,
            18446744065119618,
        );
        vstd::arithmetic::div_mod::lemma_div_pos_is_pos(sumsq as int, len * ENTROPY_SCALE as int);
        assert(len * ENTROPY_SCALE as int <= (u64::MAX as int) * 1000) by (nonlinear_arith)
            requires
                0 <= len <= u64::MAX as int,
        ;
    }
    Some((sumsq / denom) as u64)
}

/// The quartiles and interquartile range of the entropy values, or `None`
/// for an empty collection.
///
/// The discrete position arithmetic needs at least three values; a
/// collection of one or two has no first-quartile position.
pub fn interquartile_range(entropies: &Vec<FileEntropy>) -> (r: Option<IQR>)
    requires
        entropies@.len() == 0 || entropies@.len() >= 3,
    ensures
        r is Some <==> entropies@.len() > 0,
        r matches Some(q) ==> q.q1 == q1_spec(entropies@) && q.q3 == q3_spec(entropies@)
            && q.iqr == iqr_spec(entropies@),
{
    if entropies.len() == 0 {
        return None;
    }
    let sorted = sort_entropies(entropies);
    let len = sorted.len();
    let ghost sv = sorted_entropy_values(entropies@);
    proof {
        assert(forall|k: int|
            0 <= k < sorted@.len() ==> sv[k] == #[trigger] sorted@[k].entropy as int);
    }
    let q1_pos: usize = if len % 4 == 3 {
        len / 4 + 1
    } else {
        len / 4
    };
    proof {
        assert(q1_pos as int == q1_position(len as int));
        assert(1 <= q1_pos as int && 3 * (q1_pos as int) <= len as int);
    }
    let q3_pos: usize = 3 * q1_pos;
    let q1 = sorted[q1_pos - 1].entropy;
    let q3 = sorted[q3_pos - 1].entropy;
    Some(IQR { q1, q3, iqr: q3 - q1 })
}

/// The entries whose entropy lies outside the acceptance band derived
/// from the quartiles, sorted ascending by entropy, or `None` for an
/// empty collection.
///
/// A non-empty collection with no outliers yields `Some` of an empty
/// vector, distinct from the `None` of an empty input.
pub fn entropy_outliers(entropies: &Vec<FileEntropy>) -> (r: Option<Vec<FileEntropy>>)
    requires
        entropies@.len() == 0 || entropies@.len() >= 3,
    ensures
        r is Some <==> entropies@.len() > 0,
        r matches Some(v) ==> v@.to_multiset() == outliers_of(entropies@).to_multiset()
            && sorted_by_entropy(v@) && entropy_values(v@) == sorted_entropy_values(
            outliers_of(entropies@),
        ) && v@.len() == outliers_of(entropies@).len() && (forall|val: u64|
            #[trigger] entries_with(v@, val) == entries_with(outliers_of(entropies@), val)),
{
    if entropies.len() == 0 {
        return None;
    }
    let q = match interquartile_range(entropies) {
        Some(q) => q,
        None => {
            return None;
        },
    };
    let ghost pred = |e: FileEntropy|
        is_outlier(e, q1_spec(entropies@), q3_spec(entropies@), iqr_spec(entropies@));
    let mut outl: Vec<FileEntropy> = Vec::new();
    let mut i: usize = 0;
    proof {
        assert(entropies@.take(0) =~= Seq::<FileEntropy>::empty());
        assert(entropies@.take(0).filter(pred) =~= Seq::<FileEntropy>::empty());
    }
    while i < entropies.len()
        invariant
            i <= entropies@.len(),
            q.q1 == q1_spec(entropies@),
            q.q3 == q3_spec(entropies@),
            q.iqr == iqr_spec(entropies@),
            pred == (|e: FileEntropy|
                is_outlier(e, q1_spec(entropies@), q3_spec(entropies@), iqr_spec(entropies@))),
            outl@ == entropies@.take(i as int).filter(pred),
        decreases entropies@.len() - i,
    {
        let lower = entropies[i].entropy == 0 && q.q1 == 0;
        let upper = 2 * (entropies[i].entropy as u128) >= 2 * (q.q3 as u128) + 3 * (
        q.iqr as u128);
        proof {
            let e = entropies@[i as int];
            assert((lower || upper) == pred(e));
            let t0 = entropies@.take(i as int);
            let t1 = entropies@.take(i + 1);
            assert(t1.drop_last() =~= t0);
            assert(t1.last() == e);
        }
        if lower || upper {
            outl.push(entropies[i].clone());
            proof {
                reveal(Seq::filter);
                assert(entropies@.take(i + 1).filter(pred) == entropies@.take(
                    i as int,
                ).filter(pred).push(entropies@[i as int]));
            }
        } else {
            proof {
                reveal(Seq::filter);
                assert(entropies@.take(i + 1).filter(pred) == entropies@.take(
                    i as int,
                ).filter(pred));
            }
        }
        i = i + 1;
    }
    proof {
        assert(entropies@.take(entropies@.len() as int) =~= entropies@);
        assert(outliers_of(entropies@) == entropies@.filter(pred));
    }
    let sorted_out = sort_entropies(&outl);
    Some(sorted_out)
}

/// The entries whose entropy reaches `min_entropy`, in their original
/// order.
pub fn filter_entropies(entropies: &Vec<FileEntropy>, min_entropy: u64) -> (r: Vec<FileEntropy>)
    ensures
        r@ == entropies@.filter(|e: FileEntropy| e.entropy >= min_entropy),
{
    let ghost pred = |e: FileEntropy| e.entropy >= min_entropy;
    let mut kept: Vec<FileEntropy> = Vec::new();
    let mut i: usize = 0;
    proof {
        assert(entropies@.take(0) =~= Seq::<FileEntropy>::empty());
        assert(entropies@.take(0).filter(pred) =~= Seq::<FileEntropy>::empty());
    }
    while i < entropies.len()
        invariant
            i <= entropies@.len(),
            pred == (|e: FileEntropy| e.entropy >= min_entropy),
            kept@ == entropies@.take(i as int).filter(pred),
        decreases entropies@.len() - i,
    {
        proof {
            let t0 = entropies@.take(i as int);
            let t1 = entropies@.take(i + 1);
            assert(t1.drop_last() =~= t0);
            assert(t1.last() == entropies@[i as int]);
        }
        if entropies[i].entropy >= min_entropy {
            kept.push(entropies[i].clone());
            proof {
                reveal(Seq::filter);
                assert(pred(entropies@[i as int]));
                assert(entropies@.take(i + 1).filter(pred) == entropies@.take(
                    i as int,
                ).filter(pred).push(entropies@[i as int]));
            }
        } else {
            proof {
                reveal(Seq::filter);
                assert(!pred(entropies@[i as int]));
                assert(entropies@.take(i + 1).filter(pred) == entropies@.take(
                    i as int,
                ).filter(pred));
            }
        }
        i = i + 1;
    }
    proof {
        assert(entropies@.take(entropies@.len() as int) =~= entropies@);
    }
    kept
}

/// Builds the summary record for one scan session: the number of scanned
/// files and the mean, median and population variance of their entropy
/// values. `None` for an empty collection, which has no such figures.
pub fn summarize(target: String, entropies: &Vec<FileEntropy>) -> (r: Option<Stats>)
    requires
        bounded_entropies(entropies@),
    ensures
        r is Some <==> entropies@.len() > 0,
        r matches Some(st) ==> st.target == target && st.total == entropies@.len()
            && st.mean == mean_spec(entropies@) && st.median == median_spec(entropies@)
            && st.variance == variance_spec(entropies@),
{
    let m = match mean(entropies) {
        Some(x) => x,
        None => {
            return None;
        },
    };
    let md = match median(entropies) {
        Some(x) => x,
        None => {
            return None;
        },
    };
    let v = match variance(entropies) {
        Some(x) => x,
        None => {
            return None;
        },
    };
    Some(Stats { target, total: entropies.len(), mean: m, median: md, variance: v })
}

} // verus!

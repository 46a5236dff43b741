//! Shannon-entropy scanning library.
//!
//! Entropy values are carried as fixed-point integers in millibits per byte
//! (one thousandth of a bit), so an entropy of 8 bits per byte is stored as
//! 8000. Three decimal digits is exactly the precision at which results are
//! rendered, so the fixed-point representation loses nothing that is shown.

use vstd::prelude::*;

pub mod entropy;
pub mod stats;
pub mod structs;

verus! {

/// Number of millibits in one bit: the scale of all fixed-point entropy
/// values in this crate.
pub const ENTROPY_SCALE: u64 = 1000;

/// The largest possible entropy of a byte stream, in millibits per byte:
/// 8 bits per byte for a 256-symbol alphabet.
pub const MAX_ENTROPY_MILLIBITS: u64 = 8 * ENTROPY_SCALE;

/// The sum of a sequence of integers.
pub open spec fn sum_of(s: Seq<int>) -> int
    decreases s.len(),
{
    if s.len() == 0 {
        0
    } else {
        sum_of(s.drop_last()) + s.last()
    }
}

/// The entries of a sequence of machine integers, as mathematical integers.
pub open spec fn int_values(s: Seq<u64>) -> Seq<int> {
    s.map_values(|x: u64| x as int)
}

/// Replacing one entry changes the sum by the difference of the entries.
pub proof fn lemma_sum_of_update(s: Seq<int>, j: int, v: int)
    requires
        0 <= j < s.len(),
    ensures
        sum_of(s.update(j, v)) == sum_of(s) - s[j] + v,
    decreases s.len(),
{
    let su = s.update(j, v);
    if j == s.len() - 1 {
        assert(su.drop_last() =~= s.drop_last());
        assert(su.last() == v);
    } else {
        assert(su.drop_last() =~= s.drop_last().update(j, v));
        assert(su.last() == s.last());
        lemma_sum_of_update(s.drop_last(), j, v);
    }
}

/// A sum of entries that all lie in `[lo, hi]` lies in `[len * lo, len * hi]`.
pub proof fn lemma_sum_of_bounds(s: Seq<int>, lo: int, hi: int)
    requires
        forall|i: int| 0 <= i < s.len() ==> lo <= #[trigger] s[i] <= hi,
    ensures
        s.len() * lo <= sum_of(s) <= s.len() * hi,
    decreases s.len(),
{
    if s.len() == 0 {
        assert(s.len() * lo == 0 && s.len() * hi == 0) by (nonlinear_arith)
            requires
                s.len() == 0,
        ;
    } else {
        let sd = s.drop_last();
        assert(forall|i: int| 0 <= i < sd.len() ==> lo <= #[trigger] sd[i] <= hi) by {
            assert(forall|i: int| 0 <= i < sd.len() ==> sd[i] == s[i]);
        }
        lemma_sum_of_bounds(sd, lo, hi);
        assert(sum_of(s) == sum_of(sd) + s.last());
        assert(lo <= s[s.len() - 1] <= hi);
        assert(sd.len() * lo + lo == s.len() * lo) by (nonlinear_arith)
            requires
                sd.len() + 1 == s.len(),
        ;
        assert(sd.len() * hi + hi == s.len() * hi) by (nonlinear_arith)
            requires
                sd.len() + 1 == s.len(),
        ;
    }
}

} // verus!

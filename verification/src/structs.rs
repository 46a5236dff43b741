//! The record types shared by the entropy engine and the statistics engine.

use vstd::prelude::*;

verus! {

use crate::MAX_ENTROPY_MILLIBITS;

/// One scanned file: its path and its entropy in millibits per byte.
#[derive(Debug)]
pub struct FileEntropy {
    pub path: String,
    pub entropy: u64,
}

/// A well-formed entry carries an entropy in the closed range
/// `[0, MAX_ENTROPY_MILLIBITS]`: no byte stream has more than 8 bits of
/// entropy per byte.
pub open spec fn wf_entropy(e: FileEntropy) -> bool {
    e.entropy <= MAX_ENTROPY_MILLIBITS
}

/// Every entry of the sequence is well formed.
pub open spec fn wf_entropies(s: Seq<FileEntropy>) -> bool {
    forall|i: int| 0 <= i < s.len() ==> wf_entropy(#[trigger] s[i])
}

impl Clone for FileEntropy {
    fn clone(&self) -> (r: Self)
        ensures
            r == *self,
    {
        FileEntropy { path: self.path.clone(), entropy: self.entropy }
    }
}

/// Summary statistics over one scan session. `mean`, `median` and
/// `variance` are fixed-point values in millibits per byte.
#[derive(Debug)]
pub struct Stats {
    pub target: String,
    pub total: usize,
    pub mean: u64,
    pub median: u64,
    pub variance: u64,
}

impl Clone for Stats {
    fn clone(&self) -> (r: Self)
        ensures
            r == *self,
    {
        Stats {
            target: self.target.clone(),
            total: self.total,
            mean: self.mean,
            median: self.median,
            variance: self.variance,
        }
    }
}

} // verus!

//! The entropy engine: per-chunk byte histograms, the per-file size ceiling,
//! and the summation of per-chunk entropies.
//!
//! A file's entropy is defined chunk by chunk: the byte stream is cut into
//! fixed-size chunks, each chunk gets its own frequency histogram over the
//! 256 byte values, and the file's reported entropy is the sum of the
//! chunks' entropies. This bounds peak memory for very large files and is
//! the documented semantics (a file larger than one chunk reports the sum of
//! per-chunk entropies, not the entropy of a single merged histogram).
//!
//! The histograms and the chunk arithmetic are verified here; turning one
//! histogram into an entropy value takes logarithms and is left to the
//! caller, which hands the resulting millibit values back to
//! [`total_entropy`].

use vstd::prelude::*;

verus! {

use crate::{MAX_ENTROPY_MILLIBITS, int_values, lemma_sum_of_bounds, lemma_sum_of_update, sum_of};

/// Hard ceiling on the size of a file that will be scanned: 2 GiB.
pub const MAX_FILESIZE: u64 = 2147483648;

/// Size in bytes of one chunk of the byte stream.
pub const MAX_ENTROPY_CHUNK: usize = 2560000;

/// The largest number of chunks a scannable file can produce:
/// the ceiling of `MAX_FILESIZE / MAX_ENTROPY_CHUNK`.
pub const MAX_CHUNKS_PER_FILE: usize = 839;

/// How often the byte value `b` occurs in `data`.
pub open spec fn count_byte(data: Seq<u8>, b: u8) -> nat {
    data.to_multiset().count(b)
}

/// `h` is the frequency histogram of `data`: one slot per possible byte
/// value, holding how often that value occurs.
pub open spec fn is_histogram_of(h: Seq<u64>, data: Seq<u8>) -> bool {
    &&& h.len() == 256
    &&& forall|b: u8| h[b as int] == count_byte(data, b)
}

/// Where chunk `i` of a stream of `len` bytes ends (exclusive).
pub open spec fn chunk_end(len: int, i: int) -> int {
    if (i + 1) * (MAX_ENTROPY_CHUNK as int) <= len {
        (i + 1) * (MAX_ENTROPY_CHUNK as int)
    } else {
        len
    }
}

/// Chunk `i` of the byte stream `data`.
pub open spec fn spec_chunk(data: Seq<u8>, i: int) -> Seq<u8> {
    data.subrange(i * (MAX_ENTROPY_CHUNK as int), chunk_end(data.len() as int, i))
}

/// Decides whether a file of `size` bytes may be scanned.
///
/// A file over the ceiling is skipped by the caller, never read.
pub fn size_within_limit(size: u64) -> (r: bool)
    ensures
        r <==> size <= MAX_FILESIZE,
{
    size <= MAX_FILESIZE
}

/// Builds the frequency histogram of `data`: slot `b` counts how often the
/// byte value `b` occurs, and the slots sum to the length of `data`, so
/// the empirical probabilities `count / total` sum to one.
pub fn byte_histogram(data: &[u8]) -> (h: Vec<u64>)
    ensures
        is_histogram_of(h@, data@),
        sum_of(int_values(h@)) == data@.len(),
{
    let mut h: Vec<u64> = vec![0u64; 256];
    let mut i: usize = 0;
    proof {
        let e = data@.take(0);
        assert(e =~= Seq::<u8>::empty());
        e.to_multiset_ensures();
        assert forall|b: u8| count_byte(e, b) == 0 by {
            assert(!e.contains(b));
        }
        assert(forall|k: int|
            0 <= k < int_values(h@).len() ==> 0 <= #[trigger] int_values(h@)[k] <= 0);
        lemma_sum_of_bounds(int_values(h@), 0, 0);
    }
    while i < data.len()
        invariant
            h@.len() == 256,
            i <= data@.len(),
            forall|b: u8| h@[b as int] == count_byte(data@.take(i as int), b),
            forall|b: u8| h@[b as int] <= i,
            sum_of(int_values(h@)) == i,
        decreases data@.len() - i,
    {
        let b = data[i];
        let c = h[b as usize];
        let ghost old_h = h@;
        h[b as usize] = c + 1;
        proof {
            let prefix = data@.take(i as int);
            assert(data@.take(i + 1) =~= prefix.push(b));
            prefix.to_multiset_ensures();
            assert(prefix.push(b).to_multiset() =~= prefix.to_multiset().insert(b));
            assert(int_values(h@) =~= int_values(old_h).update(b as int, c + 1));
            lemma_sum_of_update(int_values(old_h), b as int, c + 1);
        }
        i = i + 1;
    }
    proof {
        assert(data@.take(data@.len() as int) =~= data@);
    }
    h
}

/// Cuts `data` into fixed-size chunks and builds one histogram per chunk.
///
/// The number of chunks is the least `n` with `n * MAX_ENTROPY_CHUNK >=
/// data.len()` (zero chunks for an empty stream), and a stream within the
/// size ceiling yields at most [`MAX_CHUNKS_PER_FILE`] chunks.
pub fn chunk_histograms(data: &[u8]) -> (r: Vec<Vec<u64>>)
    ensures
        r@.len() * (MAX_ENTROPY_CHUNK as int) >= data@.len(),
        r@.len() == 0 || (r@.len() - 1) * (MAX_ENTROPY_CHUNK as int) < data@.len(),
        forall|i: int| 0 <= i < r@.len() ==> is_histogram_of(#[trigger] r@[i]@, spec_chunk(data@, i)),
        forall|i: int|
            0 <= i < r@.len() ==> sum_of(int_values(#[trigger] r@[i]@)) == spec_chunk(
                data@,
                i,
            ).len(),
        data@.len() <= MAX_FILESIZE ==> r@.len() <= MAX_CHUNKS_PER_FILE,
{
    let mut r: Vec<Vec<u64>> = Vec::new();
    let mut start: usize = 0;
    while start < data.len()
        invariant
            start <= data@.len(),
            start == if r@.len() * (MAX_ENTROPY_CHUNK as int) <= data@.len() {
                r@.len() * (MAX_ENTROPY_CHUNK as int)
            } else {
                data@.len() as int
            },
            r@.len() == 0 || (r@.len() - 1) * (MAX_ENTROPY_CHUNK as int) < data@.len(),
            forall|i: int|
                0 <= i < r@.len() ==> is_histogram_of(#[trigger] r@[i]@, spec_chunk(data@, i)),
            forall|i: int|
                0 <= i < r@.len() ==> sum_of(int_values(#[trigger] r@[i]@)) == spec_chunk(
                    data@,
                    i,
                ).len(),
        decreases data@.len() - start,
    {
        let end = if data.len() - start >= MAX_ENTROPY_CHUNK {
            start + MAX_ENTROPY_CHUNK
        } else {
            data.len()
        };
        let chunk = vstd::slice::slice_subrange(data, start, end);
        let h = byte_histogram(chunk);
        proof {
            let k = r@.len() as int;
            assert(start == k * (MAX_ENTROPY_CHUNK as int));
            assert((k + 1) * (MAX_ENTROPY_CHUNK as int) == k * (MAX_ENTROPY_CHUNK as int) + (
            MAX_ENTROPY_CHUNK as int));
            assert(chunk@ =~= spec_chunk(data@, k));
        }
        r.push(h);
        start = end;
    }
    proof {
        if data@.len() <= MAX_FILESIZE && r@.len() > 0 {
            assert((r@.len() - 1) * (MAX_ENTROPY_CHUNK as int) < MAX_FILESIZE as int);
        }
    }
    r
}

/// Sums per-chunk entropy values (in millibits) into a file's entropy.
///
/// The reported entropy of a chunked file is exactly the sum of each
/// chunk's independently computed entropy. Every chunk's entropy is at most
/// 8000 millibits and a scannable file has at most [`MAX_CHUNKS_PER_FILE`]
/// chunks, so the sum cannot overflow.
pub fn total_entropy(chunk_entropies: &Vec<u64>) -> (r: u64)
    requires
        chunk_entropies@.len() <= MAX_CHUNKS_PER_FILE,
        forall|i: int|
            0 <= i < chunk_entropies@.len() ==> #[trigger] chunk_entropies@[i]
                <= MAX_ENTROPY_MILLIBITS,
    ensures
        r == sum_of(int_values(chunk_entropies@)),
        r <= chunk_entropies@.len() * MAX_ENTROPY_MILLIBITS,
{
    let mut acc: u64 = 0;
    let mut i: usize = 0;
    while i < chunk_entropies.len()
        invariant
            i <= chunk_entropies@.len(),
            chunk_entropies@.len() <= MAX_CHUNKS_PER_FILE,
            forall|j: int|
                0 <= j < chunk_entropies@.len() ==> #[trigger] chunk_entropies@[j]
                    <= MAX_ENTROPY_MILLIBITS,
            acc == sum_of(int_values(chunk_entropies@.take(i as int))),
            acc <= i * MAX_ENTROPY_MILLIBITS,
        decreases chunk_entropies@.len() - i,
    {
        proof {
            let prefix = int_values(chunk_entropies@.take(i as int));
            let next = int_values(chunk_entropies@.take(i + 1));
            assert(next.drop_last() =~= prefix);
            assert(next.last() == chunk_entropies@[i as int]);
            assert((i + 1) * MAX_ENTROPY_MILLIBITS == i * MAX_ENTROPY_MILLIBITS
                + MAX_ENTROPY_MILLIBITS) by (nonlinear_arith);
            assert(i * MAX_ENTROPY_MILLIBITS <= MAX_CHUNKS_PER_FILE * MAX_ENTROPY_MILLIBITS) by (nonlinear_arith)
                requires
                    0 <= i <= MAX_CHUNKS_PER_FILE as int,
            ;
        }
        acc = acc + chunk_entropies[i];
        i = i + 1;
    }
    proof {
        assert(chunk_entropies@.take(chunk_entropies@.len() as int) =~= chunk_entropies@);
    }
    acc
}

/// A chunk holding a single byte value concentrates all probability mass on
/// one symbol: its histogram counts that value `data.len()` times and every
/// other value zero times. The entropy sum over such a histogram has the
/// single term `p == 1`, whose contribution `-p * log2(p)` is zero, so a
/// single-valued input of any length has entropy exactly zero.
pub proof fn lemma_single_value_histogram(data: Seq<u8>, v: u8)
    requires
        forall|i: int| 0 <= i < data.len() ==> #[trigger] data[i] == v,
    ensures
        count_byte(data, v) == data.len(),
        forall|b: u8| b != v ==> count_byte(data, b) == 0,
    decreases data.len(),
{
    if data.len() == 0 {
        data.to_multiset_ensures();
        assert forall|b: u8| count_byte(data, b) == 0 by {
            assert(!data.contains(b));
        }
    } else {
        let prefix = data.drop_last();
        lemma_single_value_histogram(prefix, v);
        prefix.to_multiset_ensures();
        assert(data =~= prefix.push(v));
        assert(prefix.push(v).to_multiset() =~= prefix.to_multiset().insert(v));
    }
}

} // verus!

use entropyscan::entropy::{
    byte_histogram, chunk_histograms, size_within_limit, total_entropy, MAX_ENTROPY_CHUNK,
    MAX_FILESIZE,
};

/// Shannon entropy of one chunk, in millibits per byte, computed from its
/// verified histogram the way the scanner does it: `-sum(p * log2(p))` over
/// the nonzero slots, scaled to fixed point.
fn chunk_entropy_millibits(hist: &Vec<u64>, total_bytes: u64) -> u64 {
    let mut entropy = 0.0f64;
    for count in hist.iter() {
        if *count == 0 {
            continue;
        }
        let p = *count as f64 / total_bytes as f64;
        entropy -= p * p.log2();
    }
    (entropy * 1000.0).round() as u64
}

#[test]
fn histogram_counts_each_byte_value() {
    let data: Vec<u8> = vec![1, 1, 2, 3, 255];
    let h = byte_histogram(&data);
    assert_eq!(h.len(), 256);
    assert_eq!(h[0], 0);
    assert_eq!(h[1], 2);
    assert_eq!(h[2], 1);
    assert_eq!(h[3], 1);
    assert_eq!(h[255], 1);
    let total: u64 = h.iter().sum();
    assert_eq!(total, 5);
}

#[test]
fn histogram_of_empty_input_is_all_zero() {
    let data: Vec<u8> = Vec::new();
    let h = byte_histogram(&data);
    assert_eq!(h.len(), 256);
    assert!(h.iter().all(|c| *c == 0));
}

#[test]
fn single_value_input_has_zero_entropy() {
    let data: Vec<u8> = vec![0x41; 4096];
    let h = byte_histogram(&data);
    assert_eq!(h[0x41], 4096);
    assert_eq!(h.iter().filter(|c| **c > 0).count(), 1);
    assert_eq!(chunk_entropy_millibits(&h, 4096), 0);
}

#[test]
fn entropy_stays_in_range_for_mixed_input() {
    let data: Vec<u8> = (0..10_000u32).map(|i| (i % 7 + i % 13) as u8).collect();
    let h = byte_histogram(&data);
    let mut entropy = 0.0f64;
    for count in h.iter() {
        if *count == 0 {
            continue;
        }
        let p = *count as f64 / 10_000.0;
        entropy -= p * p.log2();
    }
    assert!(entropy >= 0.0);
    assert!(entropy <= 8.0);
}

#[test]
fn uniform_256_byte_chunk_has_entropy_eight() {
    let data: Vec<u8> = (0..=255u8).collect();
    let h = byte_histogram(&data);
    assert!(h.iter().all(|c| *c == 1));
    let mut entropy = 0.0f64;
    for count in h.iter() {
        let p = *count as f64 / 256.0;
        entropy -= p * p.log2();
    }
    assert!((entropy - 8.0).abs() < 1e-9);
    assert_eq!(chunk_entropy_millibits(&h, 256), 8000);
}

#[test]
fn size_ceiling_is_two_gibibytes() {
    assert!(size_within_limit(0));
    assert!(size_within_limit(MAX_FILESIZE));
    assert!(!size_within_limit(MAX_FILESIZE + 1));
}

#[test]
fn stream_spanning_two_chunks_reports_sum_of_chunk_entropies() {
    // One full chunk of half zeros, half ones (entropy 1 bit per byte),
    // then a single extra byte forming a second chunk of entropy zero.
    let mut data: Vec<u8> = vec![0u8; MAX_ENTROPY_CHUNK + 1];
    for i in 0..MAX_ENTROPY_CHUNK / 2 {
        data[i] = 1;
    }
    let hists = chunk_histograms(&data);
    assert_eq!(hists.len(), 2);
    let first_total: u64 = hists[0].iter().sum();
    let second_total: u64 = hists[1].iter().sum();
    assert_eq!(first_total, MAX_ENTROPY_CHUNK as u64);
    assert_eq!(second_total, 1);

    let e1 = chunk_entropy_millibits(&hists[0], first_total);
    let e2 = chunk_entropy_millibits(&hists[1], second_total);
    assert_eq!(e1, 1000);
    assert_eq!(e2, 0);

    let per_chunk = vec![e1, e2];
    let reported = total_entropy(&per_chunk);
    assert_eq!(reported, e1 + e2);
    assert_eq!(reported, 1000);
}

#[test]
fn single_chunk_stream_yields_one_histogram() {
    let data: Vec<u8> = vec![9u8; 100];
    let hists = chunk_histograms(&data);
    assert_eq!(hists.len(), 1);
    assert_eq!(hists[0][9], 100);
}

#[test]
fn empty_stream_yields_no_chunks() {
    let data: Vec<u8> = Vec::new();
    let hists = chunk_histograms(&data);
    assert_eq!(hists.len(), 0);
}

#[test]
fn total_entropy_adds_millibit_values() {
    assert_eq!(total_entropy(&vec![1000, 2000, 500]), 3500);
    assert_eq!(total_entropy(&vec![]), 0);
    assert_eq!(total_entropy(&vec![8000; 839]), 8000 * 839);
}

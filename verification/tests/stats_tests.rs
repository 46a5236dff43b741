use entropyscan::stats::{
    entropy_outliers, filter_entropies, interquartile_range, mean, median, sort_entropies,
    summarize, variance,
};
use entropyscan::structs::FileEntropy;

/// Builds entries from entropy values given in bits, carried as millibits.
fn entries(bits: &[f64]) -> Vec<FileEntropy> {
    bits.iter()
        .enumerate()
        .map(|(i, b)| FileEntropy {
            path: format!("file-{i}"),
            entropy: (b * 1000.0).round() as u64,
        })
        .collect()
}

fn entropies_of(v: &[FileEntropy]) -> Vec<u64> {
    v.iter().map(|e| e.entropy).collect()
}

#[test]
fn empty_collection_yields_no_result_everywhere() {
    let empty: Vec<FileEntropy> = Vec::new();
    assert!(mean(&empty).is_none());
    assert!(median(&empty).is_none());
    assert!(variance(&empty).is_none());
    assert!(interquartile_range(&empty).is_none());
    assert!(entropy_outliers(&empty).is_none());
    assert!(summarize("root".to_string(), &empty).is_none());
}

#[test]
fn nonempty_collection_yields_results() {
    let one = entries(&[4.2]);
    assert!(mean(&one).is_some());
    assert!(median(&one).is_some());
    assert!(variance(&one).is_some());
    let three = entries(&[1.0, 2.0, 3.0]);
    assert!(interquartile_range(&three).is_some());
    assert!(entropy_outliers(&three).is_some());
    assert!(summarize("root".to_string(), &three).is_some());
}

#[test]
fn median_of_odd_count_is_middle_value() {
    let v = entries(&[1.0, 2.0, 3.0]);
    assert_eq!(median(&v), Some(2000));
}

#[test]
fn median_of_even_count_averages_the_midpoint() {
    let v = entries(&[1.0, 2.0, 3.0, 4.0]);
    assert_eq!(median(&v), Some(2500));
}

#[test]
fn median_sorts_a_copy_first() {
    let v = entries(&[3.0, 1.0, 2.0]);
    assert_eq!(median(&v), Some(2000));
}

#[test]
fn mean_is_truncated_fixed_point_average() {
    let v = entries(&[1.0, 2.0]);
    assert_eq!(mean(&v), Some(1500));
    let w = entries(&[1.0, 1.001]);
    // 2001 / 2 truncates to 1000 millibits.
    assert_eq!(mean(&w), Some(1000));
}

#[test]
fn variance_is_population_variance() {
    let v = entries(&[2.0, 4.0, 4.0, 4.0, 5.0, 5.0, 7.0, 9.0]);
    assert_eq!(variance(&v), Some(4000));
    assert_eq!(mean(&v), Some(5000));
}

#[test]
fn variance_of_constant_values_is_zero() {
    let v = entries(&[3.0, 3.0, 3.0]);
    assert_eq!(variance(&v), Some(0));
}

#[test]
fn iqr_of_eight_ascending_values() {
    let v = entries(&[1.0, 2.0, 3.0, 4.0, 5.0, 6.0, 7.0, 8.0]);
    let q = interquartile_range(&v).unwrap();
    assert_eq!(q.q1, 2000);
    assert_eq!(q.q3, 6000);
    assert_eq!(q.iqr, 4000);
}

#[test]
fn iqr_of_three_values_selects_first_and_last() {
    let v = entries(&[1.0, 2.0, 3.0]);
    let q = interquartile_range(&v).unwrap();
    assert_eq!(q.q1, 1000);
    assert_eq!(q.q3, 3000);
    assert_eq!(q.iqr, 2000);
}

#[test]
fn statistics_never_mutate_the_callers_collection() {
    let v = entries(&[3.0, 1.0, 2.0, 2.0]);
    let before = entropies_of(&v);
    let sorted = sort_entropies(&v);
    let _ = mean(&v);
    let _ = median(&v);
    let _ = variance(&v);
    let _ = interquartile_range(&v);
    let _ = entropy_outliers(&v);
    let _ = filter_entropies(&v, 1500);
    let _ = summarize("root".to_string(), &v);
    assert_eq!(entropies_of(&v), before);
    assert_eq!(entropies_of(&v), vec![3000, 1000, 2000, 2000]);
    assert_eq!(entropies_of(&sorted), vec![1000, 2000, 2000, 3000]);
}

#[test]
fn sort_is_stable_for_equal_entropies() {
    let v = vec![
        FileEntropy { path: "b".to_string(), entropy: 2000 },
        FileEntropy { path: "a".to_string(), entropy: 2000 },
        FileEntropy { path: "c".to_string(), entropy: 1000 },
    ];
    let sorted = sort_entropies(&v);
    let paths: Vec<&str> = sorted.iter().map(|e| e.path.as_str()).collect();
    assert_eq!(paths, vec!["c", "b", "a"]);
}

#[test]
fn high_entropy_outlier_is_reported_sorted() {
    let v = entries(&[8.0, 1.0, 2.0, 3.0]);
    // Sorted: 1000 2000 3000 8000; q1 = 1000, q3 = 3000, iqr = 2000;
    // upper bound 3000 + 1.5 * 2000 = 6000.
    let out = entropy_outliers(&v).unwrap();
    assert_eq!(entropies_of(&out), vec![8000]);
    assert_eq!(out[0].path, "file-0");
}

#[test]
fn lower_outliers_need_zero_entropy_and_zero_q1() {
    let v = entries(&[0.0, 0.0, 5.0]);
    // q1 = 0, so the lower bound q1 - 1.5*q1 is zero and the two zero
    // entries fall on it; the upper bound 5000 + 1.5*5000 catches nothing.
    let out = entropy_outliers(&v).unwrap();
    assert_eq!(entropies_of(&out), vec![0, 0]);
}

#[test]
fn no_outliers_yields_empty_list_not_absence() {
    let v = entries(&[1.0, 2.0, 3.0, 4.0]);
    let out = entropy_outliers(&v).unwrap();
    assert!(out.is_empty());
}

#[test]
fn filter_keeps_order_and_threshold() {
    let v = entries(&[3.0, 1.0, 2.0, 4.0]);
    let kept = filter_entropies(&v, 2000);
    assert_eq!(entropies_of(&kept), vec![3000, 2000, 4000]);
    let all = filter_entropies(&v, 0);
    assert_eq!(entropies_of(&all), vec![3000, 1000, 2000, 4000]);
    let none = filter_entropies(&v, 8000);
    assert!(none.is_empty());
}

#[test]
fn summarize_collects_all_figures() {
    let v = entries(&[2.0, 4.0, 4.0, 4.0, 5.0, 5.0, 7.0, 9.0]);
    let st = summarize("scan-root".to_string(), &v).unwrap();
    assert_eq!(st.target, "scan-root");
    assert_eq!(st.total, 8);
    assert_eq!(st.mean, 5000);
    assert_eq!(st.median, 4500);
    assert_eq!(st.variance, 4000);
}

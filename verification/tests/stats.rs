use langbench::stats::{median, summarize, Summary};

// The dispersion as a reader sees it: the deviation as a share of the median.
fn mad_pct(summary: &Summary) -> f64 {
    if summary.median == 0 {
        0.0
    } else {
        summary.mad as f64 / summary.median as f64 * 100.0
    }
}

#[test]
fn an_empty_slice_has_no_summary() {
    assert_eq!(summarize(&vec![]), None);
}

#[test]
fn a_single_sample_has_no_dispersion() {
    let summary = summarize(&vec![42]).unwrap();
    assert_eq!(summary.n, 1);
    assert_eq!(summary.min, 42);
    assert_eq!(summary.median, 42);
    assert_eq!(summary.mad, 0);
    assert_eq!(mad_pct(&summary), 0.0);
}

#[test]
fn the_median_does_not_interpolate() {
    assert_eq!(median(&vec![10, 20, 30, 40]), 20);
    assert_eq!(median(&vec![10, 20, 30]), 20);
}

#[test]
fn a_single_spike_moves_neither_the_minimum_nor_the_dispersion() {
    let clean = summarize(&vec![100, 101, 102, 103, 104]).unwrap();
    let spiked = summarize(&vec![100, 101, 102, 103, 9_000]).unwrap();
    assert_eq!(clean.min, spiked.min);
    assert_eq!(clean.mad, spiked.mad);
}

#[test]
fn dispersion_is_reported_as_a_percentage_of_the_median() {
    let summary = summarize(&vec![90, 100, 110]).unwrap();
    assert_eq!(summary.median, 100);
    assert_eq!(summary.mad, 10);
    assert!((mad_pct(&summary) - 10.0).abs() < f64::EPSILON);
}

#[test]
fn a_broadly_noisy_campaign_raises_the_dispersion() {
    let clean = summarize(&vec![100, 101, 102, 103, 104]).unwrap();
    let noisy = summarize(&vec![60, 85, 102, 130, 170]).unwrap();
    assert!(mad_pct(&noisy) > mad_pct(&clean));
    assert!(noisy.mad > clean.mad);
}

#[test]
fn the_order_of_the_samples_does_not_matter() {
    let a = summarize(&vec![5, 1, 9, 3, 7]).unwrap();
    let b = summarize(&vec![9, 7, 5, 3, 1]).unwrap();
    assert_eq!(a, b);
    assert_eq!(a.min, 1);
    assert_eq!(a.median, 5);
    assert_eq!(a.mad, 2);
}

#[test]
fn a_zero_median_does_not_divide_by_zero() {
    let summary = summarize(&vec![0, 0, 0]).unwrap();
    assert_eq!(summary.median, 0);
    assert_eq!(summary.mad, 0);
    assert_eq!(mad_pct(&summary), 0.0);
}

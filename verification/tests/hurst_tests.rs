use emmy_noether::hurst::{dfa_window_sizes, local_windows, next_window};

#[test]
fn next_window_grows_by_thirty_percent_plus_one() {
    assert_eq!(next_window(0), 1);
    assert_eq!(next_window(4), 7);
    assert_eq!(next_window(8), 12);
    assert_eq!(next_window(10), 14);
    assert_eq!(next_window(100), 131);
    assert_eq!(next_window(1000), 1301);
}

#[test]
fn next_window_is_strictly_larger() {
    for n in 0..5000usize {
        let m = next_window(n);
        assert!(m > n);
        assert!(10 * (m - 1) >= 13 * n);
        assert!(10 * (m - 1) < 13 * n + 10);
    }
}

#[test]
fn dfa_window_sizes_of_a_long_series() {
    let sizes = dfa_window_sizes(4096, 8, 512).unwrap();
    assert_eq!(sizes, vec![8, 12, 17, 24, 33, 44, 59, 78, 103, 135, 177, 232, 303, 395]);
}

#[test]
fn dfa_window_sizes_start_at_min_and_stay_in_range() {
    let sizes = dfa_window_sizes(2048, 8, 128).unwrap();
    assert_eq!(sizes[0], 8);
    for w in sizes.windows(2) {
        assert!(w[0] < w[1]);
    }
    for &n in &sizes {
        assert!((8..=128).contains(&n));
        assert!(2048 / n >= 4);
    }
}

#[test]
fn dfa_window_sizes_refuse_bad_parameters() {
    // series shorter than four of the largest windows
    assert_eq!(dfa_window_sizes(2047, 8, 512), None);
    // smallest window under four samples
    assert_eq!(dfa_window_sizes(4096, 3, 512), None);
    // largest window not above the smallest
    assert_eq!(dfa_window_sizes(4096, 8, 8), None);
    assert_eq!(dfa_window_sizes(4096, 9, 8), None);
    // the boundary itself is accepted
    assert_eq!(dfa_window_sizes(2048, 8, 512).map(|v| v.len()), Some(14));
    assert_eq!(dfa_window_sizes(20, 4, 5), Some(vec![4]));
}

#[test]
fn local_windows_of_the_reference_series() {
    let w = local_windows(2048, 512, 256);
    assert_eq!(
        w,
        vec![(0, 256), (256, 512), (512, 768), (768, 1024), (1024, 1280), (1280, 1536), (1536, 1792)]
    );
}

#[test]
fn local_windows_edge_cases() {
    assert!(local_windows(100, 512, 256).is_empty());
    assert!(local_windows(100, 512, 0).is_empty());
    assert_eq!(local_windows(512, 512, 1), vec![(0, 256)]);
    assert_eq!(local_windows(10, 3, 4), vec![(0, 1), (4, 5)]);
    assert_eq!(local_windows(11, 3, 4), vec![(0, 1), (4, 5), (8, 9)]);
    assert_eq!(local_windows(5, 0, 2), vec![(0, 0), (2, 2), (4, 4)]);
}

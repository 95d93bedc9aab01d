use hrvhra_rust::samp_en::ncm_match_counts;

/// Triangular closeness matrix of a signal: row `i`, column `j` says
/// whether `signal[i]` and `signal[i + j + 1]` lie within `r` of each
/// other.
fn build_close(signal: &[f64], r: f64) -> Vec<Vec<bool>> {
    let n = signal.len();
    let rows = if n == 0 { 0 } else { n - 1 };
    let mut close = Vec::new();
    for i in 0..rows {
        let mut row = Vec::new();
        for j in 0..(rows - i) {
            row.push((signal[i] - signal[i + j + 1]).abs() <= r);
        }
        close.push(row);
    }
    close
}

/// Correlation sums for embedding orders `0 ..= m`: the verified match
/// counts, scaled by the estimator's normalization.
fn correlation_sums(signal: &[f64], m: usize, r: f64) -> Vec<f64> {
    let close = build_close(signal, r);
    let counts = ncm_match_counts(&close, m);
    let n = signal.len();
    let mut sums = Vec::new();
    for (e, &count) in counts.iter().enumerate() {
        let factor = (n - e) as f64 * (n - 1 - e) as f64;
        sums.push(count as f64 * 2.0 / factor);
    }
    sums
}

/// Sample entropy at the fixed embedding dimensions one versus two.
fn sample_entropy(signal: &[f64], r: f64) -> f64 {
    let sums = correlation_sums(signal, 1, r);
    sums[0].ln() - sums[1].ln()
}

#[test]
fn test_constant_signal_counts() {
    // On a constant signal every window pair matches for any r >= 0.
    let signal = [5.0, 5.0, 5.0, 5.0, 5.0];
    let close = build_close(&signal, 0.0);
    let counts = ncm_match_counts(&close, 1);
    assert_eq!(counts, vec![10, 6]);
}

#[test]
fn test_constant_signal_entropy_zero() {
    // Both correlation sums are exactly one, so the entropy is zero.
    let signal = [5.0, 5.0, 5.0, 5.0, 5.0];
    for r in [0.0, 0.3, 2.5] {
        let sums = correlation_sums(&signal, 1, r);
        assert_eq!(sums, vec![1.0, 1.0]);
        let entropy = sample_entropy(&signal, r);
        assert!(entropy.is_finite());
        assert_eq!(entropy, 0.0);
    }
}

#[test]
fn test_entropy_known_values() {
    // A strictly increasing signal with a radius below every samplewise
    // gap matches nothing, and the entropy degenerates to a non-finite
    // value.
    let signal = vec![1.0, 2.0, 3.0, 4.0, 5.0];
    let r = 0.5;
    let sampen = sample_entropy(&signal, r);
    assert!(!sampen.is_finite());
}

#[test]
fn test_no_match_counts_are_zero() {
    let signal = [1.0, 2.0, 3.0, 4.0, 5.0];
    let close = build_close(&signal, 0.5);
    let counts = ncm_match_counts(&close, 1);
    assert_eq!(counts, vec![0, 0]);
}

#[test]
fn test_match_counts_small_matrix() {
    // One near pair: only the order-zero comparison of samples 0 and 1
    // matches; no order-one window does.
    let signal = [1.0, 1.05, 3.0];
    let close = build_close(&signal, 0.1);
    assert_eq!(close, vec![vec![true, false], vec![false]]);
    let counts = ncm_match_counts(&close, 1);
    assert_eq!(counts, vec![1, 0]);
}

#[test]
fn test_match_counts_order_window() {
    // Windows of length two must match on both columns of the stack.
    let close = vec![vec![true, true, false], vec![true, false], vec![true]];
    let counts = ncm_match_counts(&close, 2);
    // Order 0 counts every true cell; order 1 needs two stacked trues;
    // order 2 needs three.
    assert_eq!(counts, vec![4, 2, 1]);
}

#[test]
fn test_match_counts_degenerate_signals() {
    // Too short a signal has no rows and no matches at any order.
    let empty = build_close(&[], 1.0);
    assert_eq!(ncm_match_counts(&empty, 1), vec![0, 0]);
    let single = build_close(&[7.0], 1.0);
    assert_eq!(ncm_match_counts(&single, 2), vec![0, 0, 0]);
    let pair = build_close(&[7.0, 7.2], 1.0);
    assert_eq!(ncm_match_counts(&pair, 1), vec![1, 0]);
}

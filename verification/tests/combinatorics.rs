use discarder::utils::combinations;

#[test]
fn test_combinations() {
    assert_eq!(combinations(5, 2), Some(10));
    assert_eq!(combinations(10, 3), Some(120));
    assert_eq!(combinations(52, 5), Some(2_598_960));
    assert_eq!(combinations(100, 50), None); // This will overflow
    assert_eq!(combinations(5, 6), Some(1)); // k > n
}

#[test]
fn test_combinations_edges() {
    assert_eq!(combinations(0, 0), Some(1));
    assert_eq!(combinations(52, 0), Some(1));
    assert_eq!(combinations(52, 52), Some(1));
    assert_eq!(combinations(52, 1), Some(52));
    assert_eq!(combinations(52, 51), Some(52));
}

#[test]
fn test_combinations_symmetry() {
    // C(n, k) == C(n, n - k) whenever both are defined.
    for n in [5usize, 10, 20, 52] {
        for k in 0..=n {
            assert_eq!(combinations(n, k), combinations(n, n - k));
        }
    }
}

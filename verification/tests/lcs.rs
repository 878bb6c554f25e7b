use tokitai_context::optimization::algorithms::lcs::{HirschbergLCS, OptimizedLcsResult};

#[test]
fn test_empty_sequences() {
    let a: Vec<i32> = vec![];
    let b: Vec<i32> = vec![];
    assert!(HirschbergLCS::compute_lcs(&a, &b).is_empty());

    let a: Vec<i32> = vec![1, 2, 3];
    let b: Vec<i32> = vec![];
    assert!(HirschbergLCS::compute_lcs(&a, &b).is_empty());
}

#[test]
fn test_identical_sequences() {
    let a = vec![1, 2, 3, 4, 5];
    let b = vec![1, 2, 3, 4, 5];
    let lcs = HirschbergLCS::compute_lcs(&a, &b);
    assert_eq!(lcs.len(), 5);
}

#[test]
fn test_disjoint_sequences() {
    let a = vec![1, 2, 3];
    let b = vec![4, 5, 6];
    let lcs = HirschbergLCS::compute_lcs(&a, &b);
    assert!(lcs.is_empty());
}

#[test]
fn test_partial_overlap() {
    let a = vec![1, 2, 3, 4, 5];
    let b = vec![2, 3, 4, 6, 7];
    let lcs = HirschbergLCS::compute_lcs(&a, &b);
    assert_eq!(lcs.len(), 3);
    assert_eq!(lcs[0], (1, 0));
    assert_eq!(lcs[1], (2, 1));
    assert_eq!(lcs[2], (3, 2));
}

#[test]
fn test_string_lcs() {
    let a: Vec<char> = "ABCBDAB".chars().collect();
    let b: Vec<char> = "BDCABA".chars().collect();
    let lcs = HirschbergLCS::compute_lcs(&a, &b);
    assert!(lcs.len() >= 3);
}

#[test]
fn test_large_sequences() {
    let a: Vec<usize> = (0..1000).collect();
    let b: Vec<usize> = (0..1000).step_by(2).collect();
    let lcs = HirschbergLCS::compute_lcs(&a, &b);
    assert_eq!(lcs.len(), 500);
}

#[test]
fn test_memory_efficiency() {
    let a: Vec<usize> = (0..10000).collect();
    let b: Vec<usize> = (0..10000).rev().collect();
    let lcs = HirschbergLCS::compute_lcs(&a, &b);
    assert_eq!(lcs.len(), 1);
}

#[test]
fn lcs_pairs_match_equal_items_in_order() {
    let a: Vec<char> = "ABCBDAB".chars().collect();
    let b: Vec<char> = "BDCABA".chars().collect();
    let lcs = HirschbergLCS::compute_lcs(&a, &b);
    assert_eq!(lcs.len(), 4);
    for w in lcs.windows(2) {
        assert!(w[0].0 < w[1].0 && w[0].1 < w[1].1);
    }
    for &(i, j) in &lcs {
        assert_eq!(a[i], b[j]);
    }
}

#[test]
fn long_inputs_use_the_split_and_stay_optimal() {
    let a: Vec<u32> = (0..300).map(|i| i % 7).collect();
    let b: Vec<u32> = (0..200).map(|i| (i * 3) % 7).collect();
    let lcs = HirschbergLCS::compute_lcs(&a, &b);
    for &(i, j) in &lcs {
        assert_eq!(a[i], b[j]);
    }
    let mut dp = vec![vec![0usize; b.len() + 1]; a.len() + 1];
    for i in 0..a.len() {
        for j in 0..b.len() {
            dp[i + 1][j + 1] = if a[i] == b[j] { dp[i][j] + 1 } else { dp[i][j + 1].max(dp[i + 1][j]) };
        }
    }
    assert_eq!(lcs.len(), dp[a.len()][b.len()]);
}

#[test]
fn lcs_result_lists_unmatched_indices() {
    let r = OptimizedLcsResult::from_pairs(4, 3, &[(1, 0), (3, 2)]);
    assert_eq!(r.lcs_pairs, vec![(1, 0), (3, 2)]);
    assert_eq!(r.lcs_length, 2);
    assert_eq!(r.a_only, vec![0, 2]);
    assert_eq!(r.b_only, vec![1]);
}

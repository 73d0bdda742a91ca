use jxl::context_map::{
    build_ac_context_map_candidates, build_cluster_frequencies_for_groups,
    build_cluster_frequencies_for_tokens, build_clustered_ac_context_map,
    build_popularity_split_ac_context_map, build_split_ac_context_map,
    num_clusters_in_context_map,
};
use jxl::error::Error;
use jxl::tokenize::{AcToken, NON_ZERO_BUCKETS, ZERO_DENSITY_CONTEXT_COUNT};

#[test]
fn test_ac_context_map_candidates_basic() {
    let num_contexts = 15;
    let num_ac_contexts = num_contexts * (NON_ZERO_BUCKETS + ZERO_DENSITY_CONTEXT_COUNT);
    let context_counts = vec![0u64; num_ac_contexts];
    let candidates = build_ac_context_map_candidates(num_ac_contexts, &context_counts);

    assert!(candidates.len() >= 4, "expected multiple context-map candidates");
    assert!(
        candidates.iter().any(|m| m.iter().all(|&v| v == 0)),
        "expected all-zero context map candidate"
    );

    for map in &candidates {
        assert_eq!(map.len(), num_ac_contexts);
    }
}

#[test]
fn candidates_have_no_repeats() {
    let n = 2 * 495;
    let counts = vec![1u64; n];
    let candidates = build_ac_context_map_candidates(n, &counts);
    for i in 0..candidates.len() {
        for j in 0..i {
            assert_ne!(candidates[i], candidates[j]);
        }
    }
    assert_eq!(candidates[0], vec![0u8; n]);
}

#[test]
fn clustered_map_layout() {
    let n = 2 * 495;
    let map = build_clustered_ac_context_map(n);
    assert!(map[..74].iter().all(|&c| c == 0));
    assert!(map[74..74 + 458].iter().all(|&c| c == 1));
    assert!(map[74 + 458..].iter().all(|&c| c == 2));
    assert_eq!(num_clusters_in_context_map(&map), 3);
}

#[test]
fn split_map_layout() {
    let n = 4 * 495;
    let map = build_split_ac_context_map(n, 2, 4);
    // Non-zero contexts: bucket-major, block context = ctx % 4, 2 clusters.
    assert_eq!(&map[..4], &[0, 0, 1, 1]);
    // Coefficient contexts: one slab of 458 per block context, clusters 2..6.
    let nzc = 4 * 37;
    assert_eq!(map[nzc], 2);
    assert_eq!(map[nzc + 458], 3);
    assert_eq!(map[nzc + 3 * 458], 5);
    assert_eq!(map[n - 1], 5);
    // Cluster counts are clamped to 1..=4.
    assert_eq!(build_split_ac_context_map(n, 0, 99), build_split_ac_context_map(n, 1, 4));
}

#[test]
fn popularity_map_favours_used_block_contexts() {
    let n = 3 * 495;
    let mut counts = vec![0u64; n];
    // Block context 2 is the most used for both kinds of contexts.
    counts[2] = 50;
    counts[3 * 37 + 2 * 458] = 70;
    counts[3 * 37] = 10;
    let map = build_popularity_split_ac_context_map(n, &counts, 2, 2);
    assert_eq!(&map[..3], &[1, 1, 0]);
    assert_eq!(map[3 * 37 + 2 * 458], 2);
    assert_eq!(map[3 * 37], 3);
    assert_eq!(map[3 * 37 + 458], 3);
}

#[test]
fn cluster_counts() {
    assert_eq!(num_clusters_in_context_map(&[]), 1);
    assert_eq!(num_clusters_in_context_map(&[0, 0]), 1);
    assert_eq!(num_clusters_in_context_map(&[3, 1, 7, 2]), 8);
}

#[test]
fn cluster_frequencies_follow_the_map() {
    let map = [0u8, 1, 1];
    let tokens = vec![
        AcToken { context: 0, value: 9 },
        AcToken { context: 1, value: 9 },
        AcToken { context: 2, value: 9 },
        AcToken { context: 2, value: 9 },
    ];
    let symbols = [3u32, 1, 1, 0];
    let f = build_cluster_frequencies_for_tokens(&map, 4, &tokens, &symbols).unwrap();
    assert_eq!(f, vec![vec![0, 0, 0, 1], vec![1, 2, 0, 0]]);

    let bad = vec![AcToken { context: 3, value: 0 }];
    assert_eq!(
        build_cluster_frequencies_for_tokens(&map, 4, &bad, &[0]),
        Err(Error::InvalidAnsHistogram)
    );
}

#[test]
fn cluster_frequencies_over_groups() {
    let map = [0u8, 1];
    let groups = vec![
        vec![AcToken { context: 0, value: 0 }],
        vec![AcToken { context: 1, value: 0 }, AcToken { context: 1, value: 0 }],
    ];
    let symbols = vec![vec![2u32], vec![2u32, 0]];
    let f = build_cluster_frequencies_for_groups(&map, 3, &groups, &symbols).unwrap();
    assert_eq!(f, vec![vec![0, 0, 1], vec![1, 0, 1]]);

    let bad_groups = vec![vec![], vec![AcToken { context: 5, value: 0 }]];
    let bad_symbols = vec![vec![], vec![0u32]];
    assert_eq!(
        build_cluster_frequencies_for_groups(&map, 3, &bad_groups, &bad_symbols),
        Err(Error::InvalidAnsHistogram)
    );
}

#[test]
fn first_candidate_is_the_single_cluster_map() {
    let n = 3 * 495;
    let counts: Vec<u64> = (0..n as u64).collect();
    let candidates = build_ac_context_map_candidates(n, &counts);
    assert_eq!(candidates[0], vec![0u8; n]);
    assert!(candidates.iter().all(|m| m.len() == n));
}

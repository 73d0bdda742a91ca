use jxl::coeff_order::{
    compute_lehmer_code, compute_optimal_coeff_orders_8x8, natural_coeff_order_8x8,
    natural_coeff_order_for_transform, natural_coeff_order_from_dims, permutation_context,
    permutation_tokens, token_shape_order,
};
use jxl::transform::{
    block_shape_id, canonical_transform_for_shape_id, covered_blocks_x, covered_blocks_y,
    HfTransformType,
};

#[test]
fn test_square_transform_ignored_coeff_indices_match_canonical_prefix() {
    for &(transform_type, expected) in &[
        (HfTransformType::DCT16X16, &[0usize, 1, 16, 17][..]),
        (
            HfTransformType::DCT32X32,
            &[0usize, 1, 2, 3, 32, 33, 34, 35, 64, 65, 66, 67, 96, 97, 98, 99][..],
        ),
    ] {
        let cx = covered_blocks_x(transform_type) as usize;
        let cy = covered_blocks_y(transform_type) as usize;
        let lf_count = cx * cy;
        let canonical =
            canonical_transform_for_shape_id(block_shape_id(transform_type) as usize).unwrap();
        let mut lowfreq = natural_coeff_order_for_transform(canonical)[..lf_count].to_vec();
        lowfreq.sort_unstable();
        assert_eq!(lowfreq.len(), lf_count);
        assert_eq!(lowfreq, expected);
    }
}

#[test]
fn test_rectangular_transform_ignored_coeff_indices() {
    for &(transform_type, expected) in &[
        (HfTransformType::DCT16X8, &[0usize, 1usize][..]),
        (HfTransformType::DCT8X16, &[0usize, 1usize][..]),
        (HfTransformType::DCT32X8, &[0usize, 1usize, 2usize, 3usize][..]),
        (HfTransformType::DCT8X32, &[0usize, 1usize, 2usize, 3usize][..]),
        (
            HfTransformType::DCT32X16,
            &[0usize, 1usize, 2usize, 3usize, 32usize, 33usize, 34usize, 35usize][..],
        ),
        (
            HfTransformType::DCT16X32,
            &[0usize, 1usize, 2usize, 3usize, 32usize, 33usize, 34usize, 35usize][..],
        ),
    ] {
        let cx = covered_blocks_x(transform_type) as usize;
        let cy = covered_blocks_y(transform_type) as usize;
        let lf_count = cx * cy;
        let canonical = match block_shape_id(transform_type) {
            4 => HfTransformType::DCT8X16,
            5 => HfTransformType::DCT8X32,
            6 => HfTransformType::DCT16X32,
            _ => unreachable!(),
        };
        let mut lowfreq = natural_coeff_order_for_transform(canonical)[..lf_count].to_vec();
        lowfreq.sort_unstable();
        assert_eq!(lowfreq, expected);
    }
}

#[test]
fn single_block_order_is_the_zigzag() {
    let table = natural_coeff_order_8x8();
    assert_eq!(natural_coeff_order_from_dims(1, 1), table.to_vec());
    assert_eq!(&table[..10], &[0, 1, 8, 16, 9, 2, 3, 10, 17, 24]);
}

#[test]
fn scan_orders_are_permutations() {
    let dims = [1usize, 2, 4, 8, 16, 32];
    for &cx in &dims {
        for &cy in &dims {
            let order = natural_coeff_order_from_dims(cx, cy);
            let n = cx * cy * 64;
            assert_eq!(order.len(), n);
            let mut seen = vec![false; n];
            for &v in &order {
                assert!(v < n);
                assert!(!seen[v], "repeated index {} for {}x{}", v, cx, cy);
                seen[v] = true;
            }
        }
    }
}

#[test]
fn scan_order_starts_with_the_lowest_frequencies() {
    let order = natural_coeff_order_from_dims(2, 1);
    assert_eq!(&order[..2], &[0, 1]);
    let tall = natural_coeff_order_from_dims(1, 2);
    let mut low = tall[..2].to_vec();
    low.sort_unstable();
    // A tall transform is 8 coefficients wide: its two lowest are at rows 0 and 1.
    assert_eq!(low, vec![0, 8]);
}

#[test]
fn shape_orders_exist_for_the_thirteen_shapes() {
    for shape in 0..13 {
        assert!(token_shape_order(shape).is_some());
    }
    assert!(token_shape_order(13).is_none());
    assert_eq!(token_shape_order(2).unwrap(), natural_coeff_order_from_dims(2, 2));
}

#[test]
fn permutation_contexts_count_bits() {
    assert_eq!(permutation_context(0), 0);
    assert_eq!(permutation_context(1), 1);
    assert_eq!(permutation_context(2), 2);
    assert_eq!(permutation_context(3), 2);
    assert_eq!(permutation_context(63), 6);
    assert_eq!(permutation_context(64), 7);
    assert_eq!(permutation_context(u32::MAX), 7);
}

#[test]
fn lehmer_code_of_identity_is_empty() {
    let natural = natural_coeff_order_8x8();
    let (codes, end) = compute_lehmer_code(&natural, &natural, 1);
    assert_eq!(codes, vec![0u32; 63]);
    assert_eq!(end, 0);
}

#[test]
fn lehmer_code_of_a_swap() {
    let natural = natural_coeff_order_8x8();
    let mut custom = natural;
    custom.swap(1, 2);
    let (codes, end) = compute_lehmer_code(&custom, &natural, 1);
    assert_eq!(codes[0], 1);
    assert!(codes[1..].iter().all(|&c| c == 0));
    assert_eq!(end, 1);
}

#[test]
fn lehmer_code_decodes_back() {
    let natural = natural_coeff_order_8x8();
    let mut custom = natural;
    custom[1..].reverse();
    let (codes, end) = compute_lehmer_code(&custom, &natural, 1);
    assert_eq!(end, 62);
    // Decode: pick the code-th remaining natural position each time.
    let mut remaining: Vec<usize> = (1..64).collect();
    let mut decoded = vec![natural[0]];
    for &c in &codes {
        let pos = remaining.remove(c as usize);
        decoded.push(natural[pos]);
    }
    assert_eq!(decoded, custom.to_vec());
}

#[test]
fn optimal_orders_sort_by_nonzero_counts() {
    let natural = natural_coeff_order_8x8();
    let mut ac_y = vec![0i32; 64];
    ac_y[natural[5]] = 3;
    ac_y[natural[9]] = -1;
    let ac_x = vec![0i32; 64];
    let ac_b = vec![0i32; 64];
    let map = vec![0x80u8];
    let orders = compute_optimal_coeff_orders_8x8(&ac_y, &ac_x, &ac_b, &map, 1, 0, 0, 1, 1);
    assert_eq!(orders[0][0], natural[0]);
    assert_eq!(orders[0][1], natural[5]);
    assert_eq!(orders[0][2], natural[9]);
    assert_eq!(orders[0][3], natural[1]);
    assert_eq!(orders[0][6], natural[4]);
    assert_eq!(orders[0][7], natural[6]);
    assert_eq!(orders[1], natural);
    assert_eq!(orders[2], natural);
}

#[test]
fn optimal_orders_without_dct8_blocks_keep_the_zigzag() {
    let natural = natural_coeff_order_8x8();
    let mut ac = vec![0i32; 64];
    ac[5] = 1;
    let map = vec![0x84u8];
    let orders = compute_optimal_coeff_orders_8x8(&ac, &ac, &ac, &map, 1, 0, 0, 1, 1);
    assert_eq!(orders, [natural; 3]);
}

#[test]
fn permutation_tokens_of_natural_orders() {
    let natural = natural_coeff_order_8x8();
    let tokens = permutation_tokens(&[natural; 3]);
    assert_eq!(tokens, vec![(7, 0), (7, 0), (7, 0)]);
}

#[test]
fn permutation_tokens_of_a_swap() {
    let natural = natural_coeff_order_8x8();
    let mut custom = natural;
    custom.swap(1, 2);
    let tokens = permutation_tokens(&[custom, natural, natural]);
    assert_eq!(tokens, vec![(7, 1), (0, 1), (7, 0), (7, 0)]);
}

use jxl::error::Error;
use jxl::transform::{
    DCT16_TRANSFORM_ID, DCT8_TRANSFORM_ID, DCT8X16_TRANSFORM_ID, TRANSFORM_FIRST_BLOCK_FLAG,
};
use jxl::transform_map::{
    build_default_transform_map, collect_transform_entries_for_rect, quantized_block_ac_all_zero,
    quantized_transform_region_abs_sum, quantized_transform_region_ac_all_zero,
    transform_coeff_index_to_block_storage, zero_non_dct8_ac_coeffs, zero_transform_region_ac,
};

#[test]
fn test_collect_transform_entries_for_rect_scan_order() {
    let bw = 4;
    let bh = 2;
    let mut transform_map = vec![0u8; bw * bh];
    let raw_quant_map = vec![1u8, 2, 3, 4, 5, 6, 7, 8];

    transform_map[0] = TRANSFORM_FIRST_BLOCK_FLAG | DCT8_TRANSFORM_ID;
    transform_map[3] = TRANSFORM_FIRST_BLOCK_FLAG | 4;
    transform_map[5] = TRANSFORM_FIRST_BLOCK_FLAG | 7;

    let entries =
        collect_transform_entries_for_rect(&transform_map, &raw_quant_map, bw, 0, 0, bw, bh);

    assert_eq!(entries, vec![(0, 1), (4, 4), (7, 6)]);
}

#[test]
fn test_zero_non_dct8_ac_coeffs_clears_region() {
    let bw = 2;
    let bh = 2;
    let mut ac = vec![0i32; bw * bh * 64];
    for blk in 0..(bw * bh) {
        ac[blk * 64 + 5] = 7;
        ac[blk * 64 + 17] = -3;
    }

    let mut transform_map = build_default_transform_map(bw, bh);
    transform_map[0] = TRANSFORM_FIRST_BLOCK_FLAG | DCT16_TRANSFORM_ID;
    transform_map[1] = DCT16_TRANSFORM_ID;
    transform_map[bw] = DCT16_TRANSFORM_ID;
    transform_map[bw + 1] = DCT16_TRANSFORM_ID;

    zero_non_dct8_ac_coeffs(&mut ac, &transform_map, bw, bh).unwrap();
    for blk in 0..(bw * bh) {
        assert!(ac[blk * 64 + 1..blk * 64 + 64].iter().all(|&v| v == 0));
    }
}

#[test]
fn default_map_is_all_dct8_first_blocks() {
    let map = build_default_transform_map(3, 2);
    assert_eq!(map, vec![0x80u8; 6]);
    assert!(build_default_transform_map(0, 5).is_empty());
}

#[test]
fn zero_non_dct8_keeps_dct8_blocks_and_dc() {
    let bw = 2;
    let bh = 1;
    let mut ac = vec![0i32; bw * bh * 64];
    for blk in 0..2 {
        ac[blk * 64] = 9;
        ac[blk * 64 + 3] = 4;
    }
    let mut map = build_default_transform_map(bw, bh);
    map[0] = TRANSFORM_FIRST_BLOCK_FLAG | DCT8X16_TRANSFORM_ID;
    map[1] = DCT8X16_TRANSFORM_ID;
    zero_non_dct8_ac_coeffs(&mut ac, &map, bw, bh).unwrap();
    assert_eq!(ac[0], 9);
    assert_eq!(ac[64], 9);
    assert_eq!(ac[3], 0);
    assert_eq!(ac[67], 0);

    let mut ac2 = vec![0i32; 64];
    ac2[3] = 4;
    let map2 = build_default_transform_map(1, 1);
    zero_non_dct8_ac_coeffs(&mut ac2, &map2, 1, 1).unwrap();
    assert_eq!(ac2[3], 4);
}

#[test]
fn zero_non_dct8_reports_unknown_transform() {
    let mut ac = vec![1i32; 64];
    let map = vec![TRANSFORM_FIRST_BLOCK_FLAG | 40];
    assert_eq!(
        zero_non_dct8_ac_coeffs(&mut ac, &map, 1, 1),
        Err(Error::InvalidVarDCTTransform(40))
    );
}

#[test]
fn zero_non_dct8_reports_transform_outside_grid() {
    let mut ac = vec![1i32; 64];
    let map = vec![TRANSFORM_FIRST_BLOCK_FLAG | DCT16_TRANSFORM_ID];
    assert_eq!(
        zero_non_dct8_ac_coeffs(&mut ac, &map, 1, 1),
        Err(Error::HFBlockOutOfBounds)
    );
}

#[test]
fn block_and_region_zero_checks() {
    let mut ac = vec![0i32; 4 * 64];
    assert!(quantized_block_ac_all_zero(&ac, 2));
    ac[2 * 64] = 5;
    assert!(quantized_block_ac_all_zero(&ac, 2));
    ac[2 * 64 + 63] = -1;
    assert!(!quantized_block_ac_all_zero(&ac, 2));
    assert!(quantized_transform_region_ac_all_zero(&ac, 2, 0, 0, 2, 1));
    assert!(!quantized_transform_region_ac_all_zero(&ac, 2, 0, 0, 2, 2));
}

#[test]
fn region_abs_sum_counts_ac_only() {
    let mut ac = vec![0i32; 4 * 64];
    ac[0] = 100;
    ac[1] = -3;
    ac[64 + 10] = 4;
    ac[3 * 64 + 5] = i32::MIN;
    assert_eq!(quantized_transform_region_abs_sum(&ac, 2, 0, 0, 2, 1), 7);
    assert_eq!(
        quantized_transform_region_abs_sum(&ac, 2, 0, 0, 2, 2),
        7 + 2147483648u64
    );
}

#[test]
fn storage_index_of_multi_block_coefficients() {
    assert_eq!(transform_coeff_index_to_block_storage(4, 0, 0, 2, 0), 0);
    assert_eq!(transform_coeff_index_to_block_storage(4, 0, 0, 2, 9), 64 + 1);
    assert_eq!(transform_coeff_index_to_block_storage(4, 0, 0, 2, 16), 8);
    assert_eq!(transform_coeff_index_to_block_storage(4, 1, 1, 2, 16 * 8), (2 * 4 + 1) * 64);
}

#[test]
fn zero_region_clears_only_ac_of_region() {
    let mut ac = vec![3i32; 4 * 64];
    zero_transform_region_ac(&mut ac, 2, 1, 0, 1, 2);
    assert_eq!(ac[64], 3);
    assert!(ac[65..128].iter().all(|&v| v == 0));
    assert!(ac[3 * 64 + 1..4 * 64].iter().all(|&v| v == 0));
    assert!(ac[1..64].iter().all(|&v| v == 3));
    assert!(ac[2 * 64 + 1..3 * 64].iter().all(|&v| v == 3));
}

#[test]
fn clearing_touches_exactly_the_ac_of_non_dct8_blocks() {
    // A 4x2 grid: a DCT16 over blocks (0,0)-(1,1), an IDENTITY at (2,0), DCT8 elsewhere.
    let (bw, bh) = (4usize, 2usize);
    let mut map = vec![0x80u8; bw * bh];
    map[0] = 0x84;
    map[1] = 0x04;
    map[4] = 0x04;
    map[5] = 0x04;
    map[2] = 0x81;
    let start: Vec<i32> = (0..(bw * bh * 64) as i32).map(|i| i + 1).collect();
    let mut ac = start.clone();
    zero_non_dct8_ac_coeffs(&mut ac, &map, bw, bh).unwrap();
    for i in 0..ac.len() {
        let cleared = i % 64 != 0 && (map[i / 64] & 0x7f) != 0;
        assert_eq!(ac[i], if cleared { 0 } else { start[i] });
    }
}

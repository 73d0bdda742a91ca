use jxl::merge_map::{build_low_energy_merge_transform_map, build_zero_merge_transform_map};
use jxl::transform::{DCT16_TRANSFORM_ID, DCT32_TRANSFORM_ID, DCT8X16_TRANSFORM_ID};

#[test]
fn zero_regions_merge_into_dct16() {
    let (bw, bh) = (4usize, 2usize);
    let mut ac_x = vec![0i32; bw * bh * 64];
    let ac_y = vec![0i32; bw * bh * 64];
    let ac_b = vec![0i32; bw * bh * 64];
    // Block 3 holds an AC coefficient: the right 2x2 region cannot merge.
    ac_x[3 * 64 + 9] = 2;
    let map = build_zero_merge_transform_map(&ac_x, &ac_y, &ac_b, bw, bh, &[DCT16_TRANSFORM_ID]);
    assert_eq!(map, vec![0x84, 4, 0x80, 0x80, 4, 4, 0x80, 0x80]);
}

#[test]
fn earlier_priorities_win_and_8x8_ids_are_skipped() {
    let (bw, bh) = (4usize, 4usize);
    let ac = vec![0i32; bw * bh * 64];
    let map = build_zero_merge_transform_map(&ac, &ac, &ac, bw, bh, &[0, 1, 99, DCT32_TRANSFORM_ID, DCT16_TRANSFORM_ID]);
    let mut expected = vec![DCT32_TRANSFORM_ID; 16];
    expected[0] = 0x80 | DCT32_TRANSFORM_ID;
    assert_eq!(map, expected);
}

#[test]
fn merges_stay_inside_a_group() {
    // Block 0 holds an AC coefficient, so pairs start at column 1; the pair
    // at columns 31 and 32 would cross a 32-block group edge.
    let (bw, bh) = (34usize, 1usize);
    let mut ac = vec![0i32; bw * bh * 64];
    ac[1] = 1;
    let zeros = vec![0i32; bw * bh * 64];
    let map = build_zero_merge_transform_map(&ac, &zeros, &zeros, bw, bh, &[DCT8X16_TRANSFORM_ID]);
    assert_eq!(map[0], 0x80);
    for p in 0..15 {
        assert_eq!(map[1 + 2 * p], 0x80 | DCT8X16_TRANSFORM_ID);
        assert_eq!(map[2 + 2 * p], DCT8X16_TRANSFORM_ID);
    }
    assert_eq!(map[31], 0x80);
    assert_eq!(map[32], 0x80 | DCT8X16_TRANSFORM_ID);
    assert_eq!(map[33], DCT8X16_TRANSFORM_ID);
}

#[test]
fn low_energy_regions_merge_within_budget() {
    let (bw, bh) = (2usize, 1usize);
    let mut ac_x = vec![0i32; bw * bh * 64];
    let ac_y = vec![0i32; bw * bh * 64];
    let ac_b = vec![0i32; bw * bh * 64];
    ac_x[5] = 3;
    ac_x[64 + 7] = -3;
    // Budget 3 per block, 6 for two blocks: energy 6 fits.
    let map = build_low_energy_merge_transform_map(&ac_x, &ac_y, &ac_b, bw, bh, &[DCT8X16_TRANSFORM_ID], 3);
    assert_eq!(map, vec![0x80 | DCT8X16_TRANSFORM_ID, DCT8X16_TRANSFORM_ID]);
    // Budget 2 per block, 4 for two blocks: energy 6 does not.
    let map = build_low_energy_merge_transform_map(&ac_x, &ac_y, &ac_b, bw, bh, &[DCT8X16_TRANSFORM_ID], 2);
    assert_eq!(map, vec![0x80, 0x80]);
}

#[test]
fn zero_budget_low_energy_merge_is_the_zero_merge() {
    let (bw, bh) = (8usize, 4usize);
    let mut ac = vec![0i32; bw * bh * 64];
    // Non-zero AC in a few blocks, a non-zero DC elsewhere (DC never counts).
    ac[5 * 64 + 3] = 2;
    ac[18 * 64 + 10] = -1;
    ac[2 * 64] = 9;
    let zero = vec![0i32; bw * bh * 64];
    let priority = [4u8, 5, 6, 2, 3];
    let a = build_low_energy_merge_transform_map(&ac, &zero, &zero, bw, bh, &priority, 0);
    let b = build_zero_merge_transform_map(&ac, &zero, &zero, bw, bh, &priority);
    assert_eq!(a, b);
    assert_ne!(a, build_low_energy_merge_transform_map(&ac, &zero, &zero, bw, bh, &priority, 1));
}

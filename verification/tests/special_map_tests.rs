use jxl::transform::{covered_blocks_x, covered_blocks_y, HfTransformType};
use jxl::map_candidates::{
    build_transform_map_candidates_from_quantized_ac,
    build_transform_map_candidates_from_quantized_ac_with_flags,
    build_transform_map_from_quantized_ac,
};
use jxl::special_map::{
    build_afv_transform_map_from_quantized_ac, build_compact_special_transform_map_from_quantized_ac,
    build_directional_special_transform_map_from_quantized_ac,
    build_mixed_special_transform_map_from_quantized_ac, f32_at_least, f32_below,
};
use jxl::transform::{
    AFV0_TRANSFORM_ID, AFV1_TRANSFORM_ID, AFV2_TRANSFORM_ID, AFV3_TRANSFORM_ID,
    DCT128X256_TRANSFORM_ID, DCT16_TRANSFORM_ID, DCT256X128_TRANSFORM_ID, DCT256_TRANSFORM_ID,
    DCT2X2_TRANSFORM_ID, DCT4X4_TRANSFORM_ID, DCT4X8_TRANSFORM_ID, DCT8X4_TRANSFORM_ID,
    DCT8_TRANSFORM_ID, IDENTITY_TRANSFORM_ID, TRANSFORM_FIRST_BLOCK_FLAG,
};

fn d(v: f32) -> u32 {
    v.to_bits()
}

fn is_afv(t: u8) -> bool {
    matches!(
        t & !TRANSFORM_FIRST_BLOCK_FLAG,
        AFV0_TRANSFORM_ID | AFV1_TRANSFORM_ID | AFV2_TRANSFORM_ID | AFV3_TRANSFORM_ID
    )
}

#[test]
fn test_build_transform_map_from_quantized_ac_places_dct16_for_zero_regions() {
    let bw = 4;
    let bh = 4;
    let num_blocks = bw * bh;
    let ac_x = vec![0i32; num_blocks * 64];
    let ac_y = vec![0i32; num_blocks * 64];
    let ac_b = vec![0i32; num_blocks * 64];

    let map = build_transform_map_from_quantized_ac(&ac_x, &ac_y, &ac_b, bw, bh, d(2.0));
    assert_eq!(map.len(), num_blocks);

    assert_eq!(map[0], TRANSFORM_FIRST_BLOCK_FLAG | DCT16_TRANSFORM_ID);
    assert_eq!(map[1], DCT16_TRANSFORM_ID);
    assert_eq!(map[bw], DCT16_TRANSFORM_ID);
    assert_eq!(map[bw + 1], DCT16_TRANSFORM_ID);

    let low_map = build_transform_map_from_quantized_ac(&ac_x, &ac_y, &ac_b, bw, bh, d(1.0));
    assert!(low_map
        .iter()
        .all(|&t| t == (TRANSFORM_FIRST_BLOCK_FLAG | DCT8_TRANSFORM_ID)));
}

fn seed_afv_blocks(ac_x: &mut [i32], ac_y: &mut [i32], ac_b: &mut [i32]) {
    for blk in 0..4 {
        let base = blk * 64;
        ac_y[base + 1] = if blk % 2 == 0 { 20 } else { -20 };
        ac_y[base + 8] = if blk < 2 { 2 } else { -2 };
        ac_y[base + 27] = 45;
        ac_x[base + 27] = 8;
        ac_b[base + 27] = -6;
    }
}

#[test]
fn test_build_afv_transform_map_from_quantized_ac_selects_sparse_afv() {
    let bw = 8;
    let bh = 8;
    let num_blocks = bw * bh;
    let mut ac_x = vec![0i32; num_blocks * 64];
    let mut ac_y = vec![0i32; num_blocks * 64];
    let mut ac_b = vec![0i32; num_blocks * 64];
    seed_afv_blocks(&mut ac_x, &mut ac_y, &mut ac_b);

    let map = build_afv_transform_map_from_quantized_ac(&ac_x, &ac_y, &ac_b, bw, bh, d(3.0));
    let afv_blocks = map.iter().filter(|&&t| is_afv(t)).count();

    assert!(afv_blocks >= 1, "expected at least one AFV-marked block");
    assert!(afv_blocks <= 1, "heuristic should remain sparse on 8x8 blocks");
}

#[test]
fn test_build_transform_map_candidates_can_include_afv_map() {
    let bw = 8;
    let bh = 8;
    let num_blocks = bw * bh;
    let mut ac_x = vec![0i32; num_blocks * 64];
    let mut ac_y = vec![0i32; num_blocks * 64];
    let mut ac_b = vec![0i32; num_blocks * 64];
    seed_afv_blocks(&mut ac_x, &mut ac_y, &mut ac_b);

    let candidates =
        build_transform_map_candidates_from_quantized_ac(&ac_x, &ac_y, &ac_b, bw, bh, d(3.0));
    assert!(
        candidates.iter().any(|map| map.iter().any(|&t| is_afv(t))),
        "expected at least one AFV candidate map"
    );
}

#[test]
fn test_build_transform_map_candidates_skip_afv_when_grid_is_large() {
    let bw = 65;
    let bh = 65;
    let num_blocks = bw * bh;
    let mut ac_x = vec![0i32; num_blocks * 64];
    let mut ac_y = vec![0i32; num_blocks * 64];
    let mut ac_b = vec![0i32; num_blocks * 64];

    for blk in 0..64 {
        let base = blk * 64;
        ac_y[base + 1] = 20;
        ac_y[base + 8] = 2;
        ac_y[base + 27] = 45;
        ac_x[base + 27] = 8;
        ac_b[base + 27] = -6;
    }

    let candidates =
        build_transform_map_candidates_from_quantized_ac(&ac_x, &ac_y, &ac_b, bw, bh, d(3.0));
    assert!(
        candidates.iter().all(|map| map.iter().all(|&t| !is_afv(t))),
        "did not expect AFV candidates for large grids"
    );
}

#[test]
fn test_build_directional_special_transform_map_selects_expected_orientation() {
    let bw = 4;
    let bh = 4;
    let num_blocks = bw * bh;
    let ac_x = vec![0i32; num_blocks * 64];
    let mut ac_y = vec![0i32; num_blocks * 64];
    let ac_b = vec![0i32; num_blocks * 64];

    ac_y[1] = 50;
    ac_y[2] = 40;
    ac_y[3] = 30;
    ac_y[8] = 2;
    ac_y[16] = 1;
    ac_y[24] = 1;

    let map =
        build_directional_special_transform_map_from_quantized_ac(&ac_x, &ac_y, &ac_b, bw, bh, d(3.0));
    assert_eq!(map[0], TRANSFORM_FIRST_BLOCK_FLAG | DCT4X8_TRANSFORM_ID);

    let directional_blocks = map
        .iter()
        .filter(|&&t| {
            matches!(
                t & !TRANSFORM_FIRST_BLOCK_FLAG,
                DCT4X8_TRANSFORM_ID | DCT8X4_TRANSFORM_ID
            )
        })
        .count();
    assert_eq!(directional_blocks, 1, "directional map should remain sparse");
}

#[test]
fn test_build_compact_special_transform_map_ignores_zero_blocks() {
    let bw = 4;
    let bh = 4;
    let num_blocks = bw * bh;
    let ac_x = vec![0i32; num_blocks * 64];
    let ac_y = vec![0i32; num_blocks * 64];
    let ac_b = vec![0i32; num_blocks * 64];

    let map =
        build_compact_special_transform_map_from_quantized_ac(&ac_x, &ac_y, &ac_b, bw, bh, d(3.0));
    assert!(
        map.iter()
            .all(|&t| t == (TRANSFORM_FIRST_BLOCK_FLAG | DCT8_TRANSFORM_ID)),
        "all-zero AC should keep default DCT8 map"
    );
}

#[test]
fn test_build_compact_special_transform_map_selects_dct2x2_for_smooth_block() {
    let bw = 4;
    let bh = 4;
    let num_blocks = bw * bh;
    let ac_x = vec![0i32; num_blocks * 64];
    let mut ac_y = vec![0i32; num_blocks * 64];
    let ac_b = vec![0i32; num_blocks * 64];

    ac_y[1] = 6;
    ac_y[8] = 4;

    let map =
        build_compact_special_transform_map_from_quantized_ac(&ac_x, &ac_y, &ac_b, bw, bh, d(3.0));
    assert_eq!(map[0], TRANSFORM_FIRST_BLOCK_FLAG | DCT2X2_TRANSFORM_ID);
}

#[test]
fn test_build_compact_special_transform_map_selects_identity_for_sparse_peak() {
    let bw = 4;
    let bh = 4;
    let num_blocks = bw * bh;
    let ac_x = vec![0i32; num_blocks * 64];
    let mut ac_y = vec![0i32; num_blocks * 64];
    let ac_b = vec![0i32; num_blocks * 64];

    ac_y[1] = 6;
    ac_y[27] = 40;

    let map =
        build_compact_special_transform_map_from_quantized_ac(&ac_x, &ac_y, &ac_b, bw, bh, d(3.0));
    assert_eq!(map[0], TRANSFORM_FIRST_BLOCK_FLAG | IDENTITY_TRANSFORM_ID);
}

fn seed_mixed_blocks(ac_y: &mut [i32], ac_b: &mut [i32]) {
    ac_y[1] = 6;
    ac_y[8] = 4;

    let b1 = 64;
    ac_y[b1 + 1] = 35;
    ac_y[b1 + 2] = 28;
    ac_y[b1 + 3] = 16;
    ac_y[b1 + 8] = 2;
    ac_y[b1 + 16] = 1;
    ac_y[b1 + 24] = 1;

    let b2 = 128;
    ac_y[b2 + 1] = 12;
    ac_y[b2 + 8] = 2;
    ac_y[b2 + 27] = 45;
    ac_b[b2 + 27] = -6;
}

#[test]
fn test_build_mixed_special_transform_map_selects_expected_blocks() {
    let bw = 8;
    let bh = 8;
    let num_blocks = bw * bh;
    let ac_x = vec![0i32; num_blocks * 64];
    let mut ac_y = vec![0i32; num_blocks * 64];
    let mut ac_b = vec![0i32; num_blocks * 64];
    seed_mixed_blocks(&mut ac_y, &mut ac_b);

    let b3 = 192;
    ac_y[b3 + 1] = 2;
    ac_y[b3 + 27] = 60;

    let map =
        build_mixed_special_transform_map_from_quantized_ac(&ac_x, &ac_y, &ac_b, bw, bh, d(3.0));

    assert!(matches!(
        map[0] & !TRANSFORM_FIRST_BLOCK_FLAG,
        DCT2X2_TRANSFORM_ID | DCT4X4_TRANSFORM_ID
    ));
    assert_eq!(map[1], TRANSFORM_FIRST_BLOCK_FLAG | DCT4X8_TRANSFORM_ID);
    assert_eq!(map[2], TRANSFORM_FIRST_BLOCK_FLAG | AFV0_TRANSFORM_ID);
    assert_eq!(map[3], TRANSFORM_FIRST_BLOCK_FLAG | IDENTITY_TRANSFORM_ID);
}

#[test]
fn test_build_transform_map_candidates_can_include_mixed_special_map() {
    let bw = 8;
    let bh = 8;
    let num_blocks = bw * bh;
    let ac_x = vec![0i32; num_blocks * 64];
    let mut ac_y = vec![0i32; num_blocks * 64];
    let mut ac_b = vec![0i32; num_blocks * 64];
    seed_mixed_blocks(&mut ac_y, &mut ac_b);

    let candidates =
        build_transform_map_candidates_from_quantized_ac(&ac_x, &ac_y, &ac_b, bw, bh, d(3.0));
    assert!(
        candidates.iter().any(|map| {
            matches!(
                map[1] & !TRANSFORM_FIRST_BLOCK_FLAG,
                DCT4X8_TRANSFORM_ID | DCT8X4_TRANSFORM_ID
            ) && is_afv(map[2])
        }),
        "expected at least one mixed special-transform candidate map"
    );
}

#[test]
fn test_build_transform_map_candidates_can_include_directional_special_map() {
    let bw = 8;
    let bh = 8;
    let num_blocks = bw * bh;
    let ac_x = vec![0i32; num_blocks * 64];
    let mut ac_y = vec![0i32; num_blocks * 64];
    let ac_b = vec![0i32; num_blocks * 64];

    for blk in 0..4 {
        let base = blk * 64;
        ac_y[base + 1] = 35;
        ac_y[base + 2] = 28;
        ac_y[base + 3] = 16;
        ac_y[base + 8] = 2;
        ac_y[base + 16] = 1;
        ac_y[base + 24] = 1;
    }

    let candidates =
        build_transform_map_candidates_from_quantized_ac(&ac_x, &ac_y, &ac_b, bw, bh, d(3.0));
    assert!(
        candidates.iter().any(|map| map.iter().any(|&t| {
            matches!(
                t & !TRANSFORM_FIRST_BLOCK_FLAG,
                DCT4X8_TRANSFORM_ID | DCT8X4_TRANSFORM_ID
            )
        })),
        "expected at least one directional small-transform candidate map"
    );
}

#[test]
fn test_build_transform_map_candidates_can_include_compact_special_map() {
    let bw = 8;
    let bh = 8;
    let num_blocks = bw * bh;
    let ac_x = vec![0i32; num_blocks * 64];
    let mut ac_y = vec![0i32; num_blocks * 64];
    let ac_b = vec![0i32; num_blocks * 64];

    for blk in 0..8 {
        let base = blk * 64;
        ac_y[base + 1] = 6;
        ac_y[base + 8] = 4;
    }

    let candidates =
        build_transform_map_candidates_from_quantized_ac(&ac_x, &ac_y, &ac_b, bw, bh, d(3.0));
    assert!(
        candidates.iter().any(|map| map.iter().any(|&t| {
            matches!(
                t & !TRANSFORM_FIRST_BLOCK_FLAG,
                IDENTITY_TRANSFORM_ID | DCT2X2_TRANSFORM_ID | DCT4X4_TRANSFORM_ID
            )
        })),
        "expected at least one compact special-transform candidate map"
    );
}

#[test]
fn test_build_transform_map_candidates_skip_directional_special_when_grid_is_large() {
    let bw = 65;
    let bh = 65;
    let num_blocks = bw * bh;
    let ac_x = vec![0i32; num_blocks * 64];
    let mut ac_y = vec![0i32; num_blocks * 64];
    let ac_b = vec![0i32; num_blocks * 64];

    for blk in 0..64 {
        let base = blk * 64;
        ac_y[base + 1] = 40;
        ac_y[base + 2] = 30;
        ac_y[base + 3] = 20;
        ac_y[base + 8] = 2;
        ac_y[base + 16] = 1;
        ac_y[base + 24] = 1;
    }

    let candidates =
        build_transform_map_candidates_from_quantized_ac(&ac_x, &ac_y, &ac_b, bw, bh, d(3.0));
    assert!(
        candidates.iter().all(|map| map.iter().all(|&t| {
            !matches!(
                t & !TRANSFORM_FIRST_BLOCK_FLAG,
                DCT4X8_TRANSFORM_ID | DCT8X4_TRANSFORM_ID
            )
        })),
        "did not expect directional small-transform candidates for large grids"
    );
}

#[test]
fn test_build_transform_map_candidates_skip_compact_special_when_grid_is_large() {
    let bw = 65;
    let bh = 65;
    let num_blocks = bw * bh;
    let ac_x = vec![0i32; num_blocks * 64];
    let mut ac_y = vec![0i32; num_blocks * 64];
    let ac_b = vec![0i32; num_blocks * 64];

    for blk in 0..64 {
        let base = blk * 64;
        ac_y[base + 1] = 6;
        ac_y[base + 8] = 4;
    }

    let candidates =
        build_transform_map_candidates_from_quantized_ac(&ac_x, &ac_y, &ac_b, bw, bh, d(3.0));
    assert!(
        candidates.iter().all(|map| map.iter().all(|&t| {
            !matches!(
                t & !TRANSFORM_FIRST_BLOCK_FLAG,
                IDENTITY_TRANSFORM_ID | DCT2X2_TRANSFORM_ID | DCT4X4_TRANSFORM_ID
            )
        })),
        "did not expect compact special-transform candidates for large grids"
    );
}

#[test]
fn test_build_transform_map_candidates_can_include_256_family_map() {
    let bw = 32;
    let bh = 32;
    let num_blocks = bw * bh;
    let ac_x = vec![0i32; num_blocks * 64];
    let ac_y = vec![0i32; num_blocks * 64];
    let ac_b = vec![0i32; num_blocks * 64];

    let candidates =
        build_transform_map_candidates_from_quantized_ac(&ac_x, &ac_y, &ac_b, bw, bh, d(3.0));
    assert!(
        candidates.iter().any(|map| map.iter().any(|&t| {
            matches!(
                t & !TRANSFORM_FIRST_BLOCK_FLAG,
                DCT256_TRANSFORM_ID | DCT256X128_TRANSFORM_ID | DCT128X256_TRANSFORM_ID
            )
        })),
        "expected at least one 256-family candidate map"
    );
}

#[test]
fn test_build_transform_map_candidates_skip_256_family_when_grid_is_too_large() {
    let bw = 64;
    let bh = 64;
    let num_blocks = bw * bh;
    let ac_x = vec![0i32; num_blocks * 64];
    let ac_y = vec![0i32; num_blocks * 64];
    let ac_b = vec![0i32; num_blocks * 64];

    let candidates =
        build_transform_map_candidates_from_quantized_ac(&ac_x, &ac_y, &ac_b, bw, bh, d(3.0));
    assert!(
        candidates.iter().all(|map| map.iter().all(|&t| {
            !matches!(
                t & !TRANSFORM_FIRST_BLOCK_FLAG,
                DCT256_TRANSFORM_ID | DCT256X128_TRANSFORM_ID | DCT128X256_TRANSFORM_ID
            )
        })),
        "did not expect 256-family candidates for large grids"
    );
}

#[test]
fn test_build_transform_map_candidates_skip_mixed_special_when_grid_is_large() {
    let bw = 65;
    let bh = 65;
    let num_blocks = bw * bh;
    let ac_x = vec![0i32; num_blocks * 64];
    let mut ac_y = vec![0i32; num_blocks * 64];
    let mut ac_b = vec![0i32; num_blocks * 64];
    seed_mixed_blocks(&mut ac_y, &mut ac_b);

    let candidates =
        build_transform_map_candidates_from_quantized_ac(&ac_x, &ac_y, &ac_b, bw, bh, d(3.0));
    assert!(
        candidates.iter().all(|map| {
            !matches!(
                map[1] & !TRANSFORM_FIRST_BLOCK_FLAG,
                DCT2X2_TRANSFORM_ID | DCT4X4_TRANSFORM_ID | DCT4X8_TRANSFORM_ID | DCT8X4_TRANSFORM_ID
            ) && !is_afv(map[2])
        }),
        "did not expect mixed special-transform candidates for large grids"
    );
}

#[test]
fn distance_patterns_compare_like_f32() {
    let t = 2.5f32.to_bits();
    for v in [0.0f32, -0.0, 1.0, 2.4999998, 2.5, 2.5000002, 7.0, f32::INFINITY, f32::NEG_INFINITY, -3.0, f32::NAN]
    {
        assert_eq!(f32_at_least(v.to_bits(), t), v >= 2.5, "at least, {v}");
        assert_eq!(f32_below(v.to_bits(), t), v < 2.5, "below, {v}");
    }
    assert_eq!(1.8f32.to_bits(), 0x3fe6_6666);
}

#[test]
fn special_maps_keep_dct8_below_their_distance() {
    let bw = 8;
    let bh = 8;
    let num_blocks = bw * bh;
    let mut ac_x = vec![0i32; num_blocks * 64];
    let mut ac_y = vec![0i32; num_blocks * 64];
    let mut ac_b = vec![0i32; num_blocks * 64];
    seed_afv_blocks(&mut ac_x, &mut ac_y, &mut ac_b);
    let dct8 = vec![TRANSFORM_FIRST_BLOCK_FLAG; num_blocks];
    assert_eq!(build_afv_transform_map_from_quantized_ac(&ac_x, &ac_y, &ac_b, bw, bh, d(2.4)), dct8);
    assert_ne!(build_afv_transform_map_from_quantized_ac(&ac_x, &ac_y, &ac_b, bw, bh, d(2.5)), dct8);
    assert_eq!(build_mixed_special_transform_map_from_quantized_ac(&ac_x, &ac_y, &ac_b, bw, bh, d(2.9)), dct8);
    // A NaN distance is not below the threshold: the heuristic runs.
    assert_ne!(build_afv_transform_map_from_quantized_ac(&ac_x, &ac_y, &ac_b, bw, bh, f32::NAN.to_bits()), dct8);
}

#[test]
fn afv_variant_follows_signs_and_best_block_wins() {
    // 64 blocks allow one AFV block; block 3 (all signs negative) scores highest.
    let bw = 8;
    let bh = 8;
    let num_blocks = bw * bh;
    let mut ac_x = vec![0i32; num_blocks * 64];
    let mut ac_y = vec![0i32; num_blocks * 64];
    let mut ac_b = vec![0i32; num_blocks * 64];
    seed_afv_blocks(&mut ac_x, &mut ac_y, &mut ac_b);
    ac_y[3 * 64 + 27] = 60;
    let map = build_afv_transform_map_from_quantized_ac(&ac_x, &ac_y, &ac_b, bw, bh, d(3.0));
    assert_eq!(map[3], TRANSFORM_FIRST_BLOCK_FLAG | AFV3_TRANSFORM_ID);
    assert_eq!(map.iter().filter(|&&t| is_afv(t)).count(), 1);
    // Equal scores: the lower block index is taken.
    ac_y[3 * 64 + 27] = 45;
    let map = build_afv_transform_map_from_quantized_ac(&ac_x, &ac_y, &ac_b, bw, bh, d(3.0));
    assert_eq!(map[0], TRANSFORM_FIRST_BLOCK_FLAG | AFV0_TRANSFORM_ID);
}

#[test]
fn candidates_below_distance_1_5_are_only_dct8() {
    let bw = 4;
    let bh = 4;
    let ac = vec![0i32; bw * bh * 64];
    let c = build_transform_map_candidates_from_quantized_ac(&ac, &ac, &ac, bw, bh, d(1.0));
    assert_eq!(c, vec![vec![TRANSFORM_FIRST_BLOCK_FLAG; bw * bh]]);
    // Preferring large transforms raises the distance to 2.5.
    let c = build_transform_map_candidates_from_quantized_ac_with_flags(&ac, &ac, &ac, bw, bh, d(1.0), true);
    assert!(c.len() > 1);
    // All candidates differ.
    for i in 0..c.len() {
        for j in 0..i {
            assert_ne!(c[i], c[j]);
        }
    }
}

/// Whether `map` tiles the `bw` x `bh` grid: every block belongs to exactly
/// one transform, and the transform's other blocks carry its bare id.
fn tiles(map: &[u8], bw: usize, bh: usize) -> bool {
    if map.len() != bw * bh {
        return false;
    }
    let mut owner = vec![None; bw * bh];
    for fy in 0..bh {
        for fx in 0..bw {
            let raw = map[fy * bw + fx];
            if raw & 0x80 == 0 {
                continue;
            }
            let id = raw & 0x7f;
            let t = match HfTransformType::from_usize(id as usize) {
                Some(t) => t,
                None => return false,
            };
            let (cx, cy) = (covered_blocks_x(t) as usize, covered_blocks_y(t) as usize);
            if fx + cx > bw || fy + cy > bh {
                return false;
            }
            for y in fy..fy + cy {
                for x in fx..fx + cx {
                    if owner[y * bw + x].is_some() {
                        return false;
                    }
                    owner[y * bw + x] = Some((fx, fy));
                    if (x, y) != (fx, fy) && map[y * bw + x] != id {
                        return false;
                    }
                }
            }
        }
    }
    owner.iter().all(|o| o.is_some())
}

#[test]
fn every_candidate_map_tiles_the_grid() {
    let (bw, bh) = (16usize, 16usize);
    let n = bw * bh * 64;
    let mut ac_x = vec![0i32; n];
    let mut ac_y = vec![0i32; n];
    let mut ac_b = vec![0i32; n];
    for blk in [3usize, 40, 77, 130, 201] {
        ac_x[blk * 64 + 1] = 3;
        ac_y[blk * 64 + 9] = -2;
        ac_b[blk * 64 + 17] = 1;
    }
    for dist in [1.0f32, 2.0, 3.0] {
        let maps = build_transform_map_candidates_from_quantized_ac(&ac_x, &ac_y, &ac_b, bw, bh, d(dist));
        assert!(!maps.is_empty());
        for m in &maps {
            assert!(tiles(m, bw, bh));
        }
    }
    // A map with two overlapping DCT16s does not tile.
    let mut bad = vec![0x80u8; 4 * 4];
    bad[0] = 0x80 | 4;
    bad[1] = 4;
    bad[4] = 4;
    bad[5] = 0x80 | 4;
    assert!(!tiles(&bad, 4, 4));
}

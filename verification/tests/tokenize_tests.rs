use jxl::error::Error;
use jxl::tokenize::{
    compute_block_context_map, custom_block_context, default_block_context, nonzero_context,
    pack_signed, predict_num_nonzeros, tokenize_block_8x8, tokenize_hf_region,
    zero_density_context, zero_density_context_offset, AcToken, CustomBlockCtx,
};
use jxl::transform::{
    DCT128X256_TRANSFORM_ID, DCT16_TRANSFORM_ID, DCT256X128_TRANSFORM_ID, DCT256_TRANSFORM_ID,
    TRANSFORM_FIRST_BLOCK_FLAG,
};
use jxl::transform_map::build_default_transform_map;

fn patterned_ac(bw: usize, bh: usize) -> (Vec<i32>, Vec<i32>, Vec<i32>) {
    let mut ac_x = vec![0i32; bw * bh * 64];
    let mut ac_y = vec![0i32; bw * bh * 64];
    let mut ac_b = vec![0i32; bw * bh * 64];
    for by in 0..bh {
        for bx in 0..bw {
            let base = (by * bw + bx) * 64;
            ac_x[base + 1] = 1;
            ac_y[base + 2] = -1;
            ac_b[base + 3] = 1;
        }
    }
    (ac_x, ac_y, ac_b)
}

fn single_transform_map(bw: usize, bh: usize, w: usize, h: usize, id: u8) -> Vec<u8> {
    let mut transform_map = build_default_transform_map(bw, bh);
    for y in 0..h {
        for x in 0..w {
            let idx = y * bw + x;
            transform_map[idx] = if x == 0 && y == 0 {
                TRANSFORM_FIRST_BLOCK_FLAG | id
            } else {
                id
            };
        }
    }
    transform_map
}

#[test]
fn test_tokenize_hf_region_dct256_nonzero_supported() {
    let bw = 32;
    let bh = 32;
    let (ac_x, ac_y, ac_b) = patterned_ac(bw, bh);
    let transform_map = single_transform_map(bw, bh, 32, 32, DCT256_TRANSFORM_ID);
    let tokens = tokenize_hf_region(
        &ac_x, &ac_y, &ac_b, &transform_map, bw, 0, 0, bw, bh, 15, 0, None, None, None,
    )
    .unwrap();
    assert!(tokens.iter().any(|t| t.value > 0));
}

#[test]
fn test_tokenize_hf_region_dct256x128_nonzero_supported() {
    let bw = 16;
    let bh = 32;
    let (ac_x, ac_y, ac_b) = patterned_ac(bw, bh);
    let transform_map = single_transform_map(bw, bh, 16, 32, DCT256X128_TRANSFORM_ID);
    let tokens = tokenize_hf_region(
        &ac_x, &ac_y, &ac_b, &transform_map, bw, 0, 0, bw, bh, 15, 0, None, None, None,
    )
    .unwrap();
    assert!(tokens.iter().any(|t| t.value > 0));
}

#[test]
fn test_tokenize_hf_region_dct128x256_nonzero_supported() {
    let bw = 32;
    let bh = 16;
    let (ac_x, ac_y, ac_b) = patterned_ac(bw, bh);
    let transform_map = single_transform_map(bw, bh, 32, 16, DCT128X256_TRANSFORM_ID);
    let tokens = tokenize_hf_region(
        &ac_x, &ac_y, &ac_b, &transform_map, bw, 0, 0, bw, bh, 15, 0, None, None, None,
    )
    .unwrap();
    assert!(tokens.iter().any(|t| t.value > 0));
}

#[test]
fn test_predict_num_nonzeros_matches_decoder_behavior() {
    let stride = 4;
    let mut map = vec![0u32; stride * stride];
    assert_eq!(predict_num_nonzeros(&map, stride, 0, 0), 32);
    map[0] = 5;
    assert_eq!(predict_num_nonzeros(&map, stride, 1, 0), 5);
    assert_eq!(predict_num_nonzeros(&map, stride, 0, 1), 5);
    map[1] = 7;
    map[stride] = 9;
    assert_eq!(predict_num_nonzeros(&map, stride, 1, 1), 8);
}

#[test]
fn every_transform_tokenizes_its_nonzero_coefficients() {
    // (id, blocks wide, blocks high)
    let shapes: [(u8, usize, usize); 27] = [
        (0, 1, 1), (1, 1, 1), (2, 1, 1), (3, 1, 1), (4, 2, 2), (5, 4, 4), (6, 1, 2),
        (7, 2, 1), (8, 1, 4), (9, 4, 1), (10, 2, 4), (11, 4, 2), (12, 1, 1), (13, 1, 1),
        (14, 1, 1), (15, 1, 1), (16, 1, 1), (17, 1, 1), (18, 8, 8), (19, 4, 8), (20, 8, 4),
        (21, 16, 16), (22, 8, 16), (23, 16, 8), (24, 32, 32), (25, 16, 32), (26, 32, 16),
    ];
    for &(id, w, h) in &shapes {
        let (ac_x, ac_y, ac_b) = patterned_ac(w, h);
        let transform_map = single_transform_map(w, h, w, h, id);
        let tokens = tokenize_hf_region(
            &ac_x, &ac_y, &ac_b, &transform_map, w, 0, 0, w, h, 15, 0, None, None, None,
        )
        .unwrap();
        assert!(tokens.iter().any(|t| t.value > 0), "transform id {}", id);
    }
}

#[test]
fn single_dct8_block_tokens() {
    let mut ac_x = vec![0i32; 64];
    let ac_y = vec![0i32; 64];
    let ac_b = vec![0i32; 64];
    ac_x[1] = 2; // scan position 1
    let map = build_default_transform_map(1, 1);
    let tokens =
        tokenize_hf_region(&ac_x, &ac_y, &ac_b, &map, 1, 0, 0, 1, 1, 15, 0, None, None, None)
            .unwrap();
    // Y (no non-zeros), X (one), B (none): each starts with its count token
    // in the context of the predicted count 32 (bucket 20).
    assert_eq!(
        tokens,
        vec![
            AcToken { context: 20 * 15 + 0, value: 0 },
            AcToken { context: 20 * 15 + 7, value: 1 },
            AcToken { context: 15 * 37 + 458 * 7 + (0 + 0) * 2 + 1, value: 4 },
            AcToken { context: 20 * 15 + 7, value: 0 },
        ]
    );
}

#[test]
fn unknown_transform_id_is_refused() {
    let ac = vec![0i32; 64];
    let map = vec![TRANSFORM_FIRST_BLOCK_FLAG | 27];
    assert_eq!(
        tokenize_hf_region(&ac, &ac, &ac, &map, 1, 0, 0, 1, 1, 15, 0, None, None, None),
        Err(Error::InvalidVarDCTTransform(27))
    );
}

#[test]
fn transform_leaving_region_is_refused() {
    let ac = vec![0i32; 4 * 64];
    let mut map = build_default_transform_map(2, 2);
    map[1] = TRANSFORM_FIRST_BLOCK_FLAG | DCT16_TRANSFORM_ID;
    assert_eq!(
        tokenize_hf_region(&ac, &ac, &ac, &map, 2, 0, 0, 2, 2, 15, 0, None, None, None),
        Err(Error::HFBlockOutOfBounds)
    );
}

#[test]
fn pack_signed_interleaves_signs() {
    assert_eq!(pack_signed(0), 0);
    assert_eq!(pack_signed(-1), 1);
    assert_eq!(pack_signed(1), 2);
    assert_eq!(pack_signed(-2), 3);
    assert_eq!(pack_signed(i32::MAX), u32::MAX - 1);
    assert_eq!(pack_signed(-i32::MAX), u32::MAX - 2);
}

#[test]
fn context_formulas() {
    assert_eq!(nonzero_context(0, 3, 15), 3);
    assert_eq!(nonzero_context(7, 3, 15), 7 * 15 + 3);
    assert_eq!(nonzero_context(8, 3, 15), 8 * 15 + 3);
    assert_eq!(nonzero_context(63, 3, 15), 35 * 15 + 3);
    assert_eq!(nonzero_context(64, 3, 15), 36 * 15 + 3);
    assert_eq!(zero_density_context_offset(2, 15), 15 * 37 + 2 * 458);
    assert_eq!(zero_density_context(1, 1, 0, 0), 0);
    assert_eq!(zero_density_context(2, 1, 0, 1), 63);
    assert_eq!(zero_density_context(40, 20, 0, 0), (206 + 17) * 2);
    assert_eq!(zero_density_context(3, 63, 0, 1), (62 + 30) * 2 + 1);
    // Four blocks: counts are taken per block, rounded up.
    assert_eq!(zero_density_context(5, 8, 2, 0), (31 + 1) * 2);
}

#[test]
fn block_contexts() {
    assert_eq!(default_block_context(1, 0, 0), 0);
    assert_eq!(default_block_context(0, 0, 0), 7);
    assert_eq!(default_block_context(2, 0, 0), 7);
    assert_eq!(default_block_context(1, 20, 0), 6);
    assert_eq!(default_block_context(0, 12, 0), 14);
    let thresholds = [10u32];
    let map: Vec<u8> = (0..78u8).collect();
    assert_eq!(custom_block_context(1, 0, 5, &thresholds, &map), 0);
    assert_eq!(custom_block_context(1, 0, 11, &thresholds, &map), 1);
    assert_eq!(custom_block_context(0, 3, 11, &thresholds, &map), 26 + 7);
    assert_eq!(custom_block_context(2, 12, 11, &thresholds, &map), 77);
    assert_eq!(custom_block_context(2, 12, 11, &thresholds, &map[..10]), 0);
}

#[test]
fn tokenize_block_with_custom_order() {
    let mut coeffs = vec![0i32; 64];
    coeffs[63] = -1;
    let mut order = [0usize; 64];
    for (k, o) in order.iter_mut().enumerate() {
        *o = if k == 0 { 0 } else { 64 - k };
    }
    let mut tokens = Vec::new();
    let nz = tokenize_block_8x8(&coeffs, 1, 0, 15, 0, 0, &mut tokens, Some(&order));
    assert_eq!(nz, 1);
    assert_eq!(tokens.len(), 2);
    assert_eq!(tokens[0], AcToken { context: 0, value: 1 });
    assert_eq!(tokens[1].value, 1);
}

#[test]
fn block_context_map_needs_large_varied_images() {
    let small = vec![1u8, 2, 3];
    assert!(compute_block_context_map(&small, &[], 10, 10).is_none());
    let uniform = vec![5u8; 8192];
    assert!(compute_block_context_map(&uniform, &[], 128, 64).is_none());
    let mut varied = vec![5u8; 8192];
    for v in varied.iter_mut().skip(6000) {
        *v = 9;
    }
    let ctx: CustomBlockCtx = compute_block_context_map(&varied, &[], 128, 64).unwrap();
    assert_eq!(ctx.qf_thresholds, vec![5]);
    assert_eq!(ctx.num_contexts, 16);
    assert_eq!(ctx.context_map.len(), 78);
    assert_eq!(ctx.context_map[0], 0);
    assert_eq!(ctx.context_map[1], 15);
    assert_eq!(ctx.context_map[26], 7);
    assert_eq!(ctx.context_map[27], 7);
    assert_eq!(ctx.context_map[77], 14);
    // Only Y-channel DCT8x8 blocks above the median quant value get the new context.
    let qf = 6;
    assert_eq!(custom_block_context(1, 0, qf, &ctx.qf_thresholds, &ctx.context_map), 15);
    assert_eq!(custom_block_context(0, 0, qf, &ctx.qf_thresholds, &ctx.context_map), 7);
    assert_eq!(custom_block_context(1, 0, 5, &ctx.qf_thresholds, &ctx.context_map), 0);
}

#[test]
fn uncoded_coefficients_may_hold_any_value() {
    // Two DCT8 blocks, the region covering only the first: the DC of the
    // first block and every coefficient of the second are never coded.
    let (mut ac_x, ac_y, ac_b) = patterned_ac(2, 1);
    let map = build_default_transform_map(2, 1);
    let expected = tokenize_hf_region(&ac_x, &ac_y, &ac_b, &map, 2, 0, 0, 1, 1, 15, 0, None, None, None).unwrap();
    ac_x[0] = i32::MIN;
    for v in &mut ac_x[64..128] {
        *v = i32::MIN;
    }
    let tokens = tokenize_hf_region(&ac_x, &ac_y, &ac_b, &map, 2, 0, 0, 1, 1, 15, 0, None, None, None).unwrap();
    assert_eq!(tokens, expected);
    let mut out = Vec::new();
    let coeffs: Vec<i32> = (0..64).map(|k| if k == 0 { i32::MIN } else { (k % 3) as i32 - 1 }).collect();
    let nz = tokenize_block_8x8(&coeffs, 0, 0, 15, 0, 0, &mut out, None);
    assert_eq!(nz, 42);
}

use jxl::coeff_order::compute_optimal_coeff_orders_8x8;
use jxl::effort::{effort_params, split_ac_into_passes};
use jxl::error::Error;
use jxl::frame_plan::{
    alpha_group_tile, choose_frame_custom_orders, count_token_contexts, frame_layout, group_rect,
    merge_pass_tokens, tokenize_frame_groups, tokenize_frame_passes, usable_context_maps,
};
use jxl::tokenize::{tokenize_hf_region, AcToken};

#[test]
fn layout_of_small_and_large_frames() {
    let l = frame_layout(32, 32, false, false);
    assert_eq!((l.num_groups_x, l.num_groups_y, l.num_groups), (1, 1, 1));
    assert_eq!((l.num_lf_groups_x, l.num_lf_groups_y, l.num_lf_groups), (1, 1, 1));
    assert!(l.single_group);
    // Progressive without alpha always uses the multi-group layout.
    assert!(!frame_layout(32, 32, true, false).single_group);
    assert!(frame_layout(32, 32, true, true).single_group);
    let l = frame_layout(257, 33, false, false);
    assert_eq!((l.num_groups_x, l.num_groups_y, l.num_groups), (9, 2, 18));
    assert_eq!((l.num_lf_groups_x, l.num_lf_groups_y, l.num_lf_groups), (2, 1, 2));
    assert!(!l.single_group);
}

#[test]
fn group_rectangles_clip_at_the_edge() {
    assert_eq!(group_rect(0, 2, 32, 40, 70), (0, 0, 32, 32));
    assert_eq!(group_rect(1, 2, 32, 40, 70), (32, 0, 8, 32));
    assert_eq!(group_rect(5, 2, 32, 40, 70), (32, 64, 8, 6));
}

#[test]
fn alpha_tiles_are_cropped_and_widened() {
    let width = 300;
    let height = 2;
    let alpha: Vec<u8> = (0..width * height).map(|i| (i % 251) as u8).collect();
    let (tile, w, h) = alpha_group_tile(&alpha, width, height, 1, 2);
    assert_eq!((w, h), (44, 2));
    let mut want = Vec::new();
    for y in 0..2 {
        for x in 256..300 {
            want.push(alpha[y * width + x] as i32);
        }
    }
    assert_eq!(tile, want);
}

#[test]
fn token_contexts_are_counted_over_all_groups() {
    let t = |context: usize| AcToken { context, value: 0 };
    let groups = vec![vec![t(0), t(2), t(2)], vec![], vec![t(1), t(2)]];
    assert_eq!(count_token_contexts(&groups, 4), vec![1, 1, 3, 0]);
}

#[test]
fn context_maps_must_fit_the_group_count() {
    let cands = vec![vec![0u8, 1, 2], vec![0, 0, 1], vec![0, 0, 0]];
    assert_eq!(usable_context_maps(cands.clone(), 2, 3), vec![vec![0, 0, 1], vec![0, 0, 0]]);
    assert_eq!(usable_context_maps(vec![vec![3u8, 0]], 2, 5), vec![vec![0u8; 5]]);
    assert_eq!(usable_context_maps(cands, 3, 3).len(), 3);
}

#[test]
fn custom_orders_only_when_enabled_single_pass_and_not_zigzag() {
    let ac_x = vec![0i32; 64];
    let mut ac_y = vec![0i32; 64];
    let ac_b = vec![0i32; 64];
    let map = [0x80u8];
    assert_eq!(choose_frame_custom_orders(&ac_x, &ac_y, &ac_b, &map, 1, 1, true, 1), None);
    ac_y[8] = 5;
    let o = compute_optimal_coeff_orders_8x8(&ac_y, &ac_x, &ac_b, &map, 1, 0, 0, 1, 1);
    assert_eq!(choose_frame_custom_orders(&ac_x, &ac_y, &ac_b, &map, 1, 1, true, 1), Some(o));
    assert_eq!(choose_frame_custom_orders(&ac_x, &ac_y, &ac_b, &map, 1, 1, true, 2), None);
    assert_eq!(choose_frame_custom_orders(&ac_x, &ac_y, &ac_b, &map, 1, 1, false, 1), None);
}

#[test]
fn every_block_lies_in_exactly_one_group() {
    let (bw, bh) = (70usize, 40usize);
    let l = frame_layout(bw, bh, false, false);
    let mut owners = vec![0usize; bw * bh];
    for g in 0..l.num_groups {
        let (x0, y0, w, h) = group_rect(g, l.num_groups_x, 32, bw, bh);
        assert!(w > 0 && h > 0);
        for y in y0..y0 + h {
            for x in x0..x0 + w {
                owners[y * bw + x] += 1;
            }
        }
    }
    assert!(owners.iter().all(|&c| c == 1));
}

fn two_pass_planes(n: usize) -> (Vec<Vec<i32>>, Vec<Vec<i32>>, Vec<Vec<i32>>) {
    let mut xs = Vec::new();
    let mut ys = Vec::new();
    let mut bs = Vec::new();
    for p in 0..2i32 {
        xs.push((0..n).map(|i| ((i as i32 * 7 + p) % 5) - 2).collect());
        ys.push((0..n).map(|i| ((i as i32 * 3 + p) % 7) - 3).collect());
        bs.push((0..n).map(|i| if i % 11 == 0 { p + 1 } else { 0 }).collect());
    }
    (xs, ys, bs)
}

#[test]
fn frame_groups_are_tokenized_per_pass_and_group() {
    let (bw, bh) = (40usize, 3usize);
    let (xs, ys, bs) = two_pass_planes(bw * bh * 64);
    let map = vec![0x80u8; bw * bh];
    let quant = vec![3u8; bw * bh];
    let t = tokenize_frame_groups(&xs, &ys, &bs, &map, &quant, bw, bh, 2, 2, None).unwrap();
    assert_eq!(t.len(), 2);
    for p in 0..2 {
        assert_eq!(t[p].len(), 2);
        for g in 0..2 {
            let (x0, y0, gw, gh) = group_rect(g, 2, 32, bw, bh);
            let expected = tokenize_hf_region(
                &xs[p], &ys[p], &bs[p], &map, bw, x0, y0, gw, gh, 15, 0, None, Some(&quant), None,
            )
            .unwrap();
            assert_eq!(t[p][g], expected);
        }
    }
    // The two groups differ in size, so their token lists do too.
    assert_ne!(t[0][0].len(), t[0][1].len());
}

#[test]
fn frame_group_tokenizing_reports_the_first_error() {
    let (bw, bh) = (40usize, 3usize);
    let (xs, ys, bs) = two_pass_planes(bw * bh * 64);
    let mut map = vec![0x80u8; bw * bh];
    // An unknown transform id in the second group.
    map[35] = 0x80 | 30;
    let quant = vec![3u8; bw * bh];
    let r = tokenize_frame_groups(&xs, &ys, &bs, &map, &quant, bw, bh, 2, 2, None);
    assert_eq!(r, Err(Error::InvalidVarDCTTransform(30)));
}

#[test]
fn pass_tokens_are_joined_per_group() {
    let tok = |context: usize, value: u32| AcToken { context, value };
    let passes = vec![
        vec![vec![tok(0, 1)], vec![tok(1, 2), tok(2, 3)]],
        vec![vec![tok(3, 4), tok(4, 5)], vec![]],
        vec![vec![tok(5, 6)], vec![tok(6, 7)]],
    ];
    let merged = merge_pass_tokens(&passes, 2);
    assert_eq!(merged, vec![
        vec![tok(0, 1), tok(3, 4), tok(4, 5), tok(5, 6)],
        vec![tok(1, 2), tok(2, 3), tok(6, 7)],
    ]);
    assert_eq!(merge_pass_tokens(&passes, 0), Vec::<Vec<AcToken>>::new());
}

#[test]
fn frame_passes_are_split_tokenized_and_joined() {
    let (bw, bh) = (40usize, 3usize);
    let n = bw * bh * 64;
    let ac_x: Vec<i32> = (0..n).map(|i| ((i as i32 * 5) % 9) - 4).collect();
    let ac_y: Vec<i32> = (0..n).map(|i| ((i as i32 * 11) % 13) - 6).collect();
    let ac_b: Vec<i32> = (0..n).map(|i| if i % 7 == 0 { 3 } else { 0 }).collect();
    let map = vec![0x80u8; bw * bh];
    let quant = vec![2u8; bw * bh];
    let shifts = [1u32];
    let plan = tokenize_frame_passes(&ac_x, &ac_y, &ac_b, &map, &quant, bw, bh, 2, &shifts, 7).unwrap();
    // Two passes: no custom orders.
    assert!(plan.custom_orders.is_none());
    let xs = split_ac_into_passes(&ac_x, 2, &shifts, 7);
    let ys = split_ac_into_passes(&ac_y, 2, &shifts, 7);
    let bs = split_ac_into_passes(&ac_b, 2, &shifts, 7);
    let expected = tokenize_frame_groups(&xs, &ys, &bs, &map, &quant, bw, bh, 2, 2, None).unwrap();
    assert_eq!(plan.group_tokens_passes, expected);
    assert_eq!(plan.merged_group_tokens, merge_pass_tokens(&expected, 2));
    assert_eq!(
        plan.merged_group_tokens[1].len(),
        expected[0][1].len() + expected[1][1].len()
    );
}

#[test]
fn single_pass_frame_uses_the_chosen_orders() {
    let (bw, bh) = (40usize, 3usize);
    let n = bw * bh * 64;
    // Non-zero coefficients only at the last scan positions, so the optimal
    // orders differ from the zigzag.
    let ac: Vec<i32> = (0..n).map(|i| if i % 64 == 63 || i % 64 == 62 { 1 } else { 0 }).collect();
    let map = vec![0x80u8; bw * bh];
    let quant = vec![2u8; bw * bh];
    for effort in [1u8, 9] {
        let plan = tokenize_frame_passes(&ac, &ac, &ac, &map, &quant, bw, bh, 1, &[], effort).unwrap();
        let enabled = effort_params(effort).enable_custom_coeff_orders;
        let orders = choose_frame_custom_orders(&ac, &ac, &ac, &map, bw, bh, enabled, 1);
        assert_eq!(plan.custom_orders, orders);
        assert_eq!(orders.is_some(), effort == 9);
        let planes = vec![ac.clone()];
        let expected =
            tokenize_frame_groups(&planes, &planes, &planes, &map, &quant, bw, bh, 2, 2, orders.as_ref())
                .unwrap();
        assert_eq!(plan.group_tokens_passes, expected);
        assert_eq!(plan.merged_group_tokens, plan.group_tokens_passes[0]);
    }
    assert!(effort_params(9).enable_custom_coeff_orders != effort_params(1).enable_custom_coeff_orders);
}

#[test]
fn frame_pass_tokenizing_reports_the_first_error() {
    let (bw, bh) = (40usize, 3usize);
    let n = bw * bh * 64;
    let ac = vec![1i32; n];
    let mut map = vec![0x80u8; bw * bh];
    map[35] = 0x80 | 40;
    let quant = vec![2u8; bw * bh];
    let r = tokenize_frame_passes(&ac, &ac, &ac, &map, &quant, bw, bh, 1, &[], 5);
    assert!(matches!(r, Err(Error::InvalidVarDCTTransform(40))));
}

#[test]
fn frame_token_contexts_stay_below_the_ac_context_count() {
    let (bw, bh) = (40usize, 3usize);
    let n = bw * bh * 64;
    // Dense coefficients give the largest non-zero counts and zero-density contexts.
    let ac: Vec<i32> = (0..n).map(|i| (i % 5) as i32 + 1).collect();
    let mut map = vec![0x80u8; bw * bh];
    // A DCT16 (id 4) over blocks (0, 0)..(1, 1).
    map[0] = 0x84;
    map[1] = 0x04;
    map[bw] = 0x04;
    map[bw + 1] = 0x04;
    let quant = vec![1u8; bw * bh];
    let plan = tokenize_frame_passes(&ac, &ac, &ac, &map, &quant, bw, bh, 2, &[2], 9).unwrap();
    let mut max_context = 0;
    for pass in &plan.group_tokens_passes {
        for group in pass {
            for t in group {
                max_context = max_context.max(t.context);
            }
        }
    }
    assert!(max_context < 15 * 495);
    assert!(max_context >= 15 * 37);
    let counts = count_token_contexts(&plan.merged_group_tokens, 15 * 495);
    let total: u64 = counts.iter().sum();
    let tokens: usize = plan.merged_group_tokens.iter().map(|g| g.len()).sum();
    assert_eq!(total as usize, tokens);
}

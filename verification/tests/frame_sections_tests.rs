use jxl::context_map::build_ac_context_map_candidates;
use jxl::error::Error;
use jxl::frame_plan::{
    encode_lf_group_sections, frame_context_map_candidates, tokenize_frame_passes, usable_context_maps,
};
use jxl::frame_sections::{
    alpha_group_tiles, plan_multi_group_sections, plan_vardct_frame, AnimFrameParams, FrameSections,
};
use jxl::group_sections::{encode_lf_group_section, encode_single_group_section};
use jxl::header::{encode_lf_global_section, write_vardct_frame_header_full, FrameHeaderConfig, HeaderField};

struct Frame {
    width: usize,
    height: usize,
    bw: usize,
    bh: usize,
    dc: Vec<i32>,
    ac_x: Vec<i32>,
    ac_y: Vec<i32>,
    ac_b: Vec<i32>,
    quant: Vec<u8>,
    map: Vec<u8>,
    cfl: Vec<i32>,
}

fn frame(width: usize, height: usize) -> Frame {
    let bw = (width + 7) / 8;
    let bh = (height + 7) / 8;
    let n = bw * bh * 64;
    Frame {
        width,
        height,
        bw,
        bh,
        dc: (0..bw * bh).map(|i| (i % 9) as i32 - 4).collect(),
        ac_x: (0..n).map(|i| ((i as i32 * 5) % 9) - 4).collect(),
        ac_y: (0..n).map(|i| ((i as i32 * 3) % 7) - 3).collect(),
        ac_b: (0..n).map(|i| if i % 13 == 0 { 2 } else { 0 }).collect(),
        quant: (0..bw * bh).map(|i| (i % 5) as u8 + 1).collect(),
        map: vec![0x80u8; bw * bh],
        cfl: vec![1i32; ((bw + 7) / 8) * ((bh + 7) / 8)],
    }
}

fn header_of(use_gab: bool, extra: u32, anim: Option<(u32, bool)>, passes: u32, shifts: Vec<u32>) -> Vec<HeaderField> {
    let mut w = Vec::new();
    write_vardct_frame_header_full(
        &mut w,
        &FrameHeaderConfig {
            use_gab,
            num_extra_channels: extra,
            have_animation: anim.is_some(),
            duration: anim.map_or(0, |a| a.0),
            is_last: anim.map_or(true, |a| a.1),
            num_passes: passes,
            pass_shifts: shifts,
        },
    );
    w
}

#[test]
fn alpha_tiles_cover_the_pixel_groups() {
    let (width, height) = (300usize, 10usize);
    let alpha: Vec<u8> = (0..width * height).map(|i| (i % 251) as u8).collect();
    let tiles = alpha_group_tiles(Some(&alpha), width, height, 2, 2);
    assert_eq!(tiles.len(), 2);
    let (t0, w0, h0) = tiles[0].clone().unwrap();
    let (t1, w1, h1) = tiles[1].clone().unwrap();
    assert_eq!((w0, h0, w1, h1), (256, 10, 44, 10));
    assert_eq!(t0[0], 0);
    assert_eq!(t0[256], alpha[300] as i32);
    assert_eq!(t1[0], alpha[256] as i32);
    assert_eq!(t1[44], alpha[556] as i32);
    assert_eq!(alpha_group_tiles(None, width, height, 2, 2), vec![None, None]);
}

#[test]
fn lf_group_sections_follow_the_lf_grid() {
    let f = frame(2100, 8);
    assert_eq!((f.bw, f.bh), (263, 1));
    let sections =
        encode_lf_group_sections(f.bw, f.bh, &f.dc, &f.dc, &f.dc, &f.quant, &f.map, &f.cfl, &f.cfl);
    assert_eq!(sections.len(), 2);
    for g in 0..2 {
        let one = encode_lf_group_section(g, 0, f.bw, f.bh, 256, &f.dc, &f.dc, &f.dc, &f.quant, &f.map, &f.cfl, &f.cfl);
        assert_eq!(sections[g], one);
    }
    assert_ne!(sections[0], sections[1]);
}

#[test]
fn context_map_candidates_of_a_frame() {
    let counts: Vec<u64> = (0..7425u64).map(|i| (i * 7) % 11).collect();
    // Several passes: only the all-zero map.
    let maps = frame_context_map_candidates(7425, &counts, 2, vec![vec![1u8; 7425]], 4);
    assert_eq!(maps, vec![vec![0u8; 7425]]);
    // One pass: the built candidates, then the new clustered maps, kept if usable.
    let base = build_ac_context_map_candidates(7425, &counts);
    let mut two = vec![0u8; 7425];
    two[5] = 1;
    let mut many = vec![0u8; 7425];
    for (i, m) in many.iter_mut().enumerate() {
        *m = (i % 9) as u8;
    }
    let clustered = vec![base[0].clone(), two.clone(), two.clone(), many.clone()];
    let maps = frame_context_map_candidates(7425, &counts, 1, clustered, 4);
    let mut expected = base.clone();
    expected.push(two.clone());
    expected.push(many.clone());
    assert_eq!(maps, usable_context_maps(expected, 4, 7425));
    assert!(maps.contains(&two));
    assert!(!maps.contains(&many));
}

#[test]
fn multi_group_sections_of_a_frame() {
    let f = frame(320, 24);
    let alpha: Vec<u8> = (0..f.width * f.height).map(|i| (i % 7) as u8).collect();
    let m = plan_multi_group_sections(
        f.width, f.height, f.bw, f.bh, 100, 16, &f.dc, &f.dc, &f.dc, &f.ac_x, &f.ac_y, &f.ac_b, &f.quant,
        &f.map, &f.cfl, &f.cfl, Some(&alpha), 1, &[], 7,
    )
    .unwrap();
    let t = tokenize_frame_passes(&f.ac_x, &f.ac_y, &f.ac_b, &f.map, &f.quant, f.bw, f.bh, 1, &[], 7).unwrap();
    assert_eq!(m.tokens.group_tokens_passes, t.group_tokens_passes);
    assert_eq!(m.tokens.merged_group_tokens, t.merged_group_tokens);
    assert_eq!(m.tokens.custom_orders, t.custom_orders);
    assert_eq!(m.lf_global, encode_lf_global_section(100, 16, None, true));
    assert_eq!(
        m.lf_groups,
        encode_lf_group_sections(f.bw, f.bh, &f.dc, &f.dc, &f.dc, &f.quant, &f.map, &f.cfl, &f.cfl)
    );
    assert_eq!(m.alpha_tiles, alpha_group_tiles(Some(&alpha), f.width, f.height, 2, 2));
    assert_eq!(m.alpha_tiles.len(), 2);
}

#[test]
fn still_frame_in_one_group() {
    let f = frame(8, 8);
    let plan = plan_vardct_frame(
        f.width, f.height, f.bw, f.bh, 100, 16, &f.dc, &f.dc, &f.dc, &f.ac_x, &f.ac_y, &f.ac_b, &f.quant,
        &f.map, &f.cfl, &f.cfl, false, None, None, 7, false,
    )
    .unwrap();
    assert_eq!((plan.num_passes, plan.pass_shifts.clone()), (1, vec![]));
    assert_eq!(plan.header, header_of(false, 0, None, 1, vec![]));
    assert!(plan.layout.single_group);
    let one = encode_single_group_section(
        f.bw, f.bh, f.width, f.height, 100, 16, &f.dc, &f.dc, &f.dc, &f.ac_x, &f.ac_y, &f.ac_b, &f.quant,
        &f.map, &f.cfl, &f.cfl, None, 7,
    )
    .unwrap();
    match plan.sections {
        FrameSections::Single(s) => assert_eq!(s, one),
        FrameSections::Multi(_) => panic!("expected a single section"),
    }
}

#[test]
fn progressive_frame_without_alpha_uses_groups() {
    let f = frame(8, 8);
    let anim = AnimFrameParams { duration: 5, is_last: false };
    let plan = plan_vardct_frame(
        f.width, f.height, f.bw, f.bh, 100, 16, &f.dc, &f.dc, &f.dc, &f.ac_x, &f.ac_y, &f.ac_b, &f.quant,
        &f.map, &f.cfl, &f.cfl, true, Some(&anim), None, 7, true,
    )
    .unwrap();
    assert_eq!((plan.num_passes, plan.pass_shifts.clone()), (2, vec![1]));
    assert_eq!(plan.header, header_of(true, 0, Some((5, false)), 2, vec![1]));
    assert!(!plan.layout.single_group);
    match plan.sections {
        FrameSections::Multi(m) => {
            assert_eq!(m.tokens.group_tokens_passes.len(), 2);
            assert_eq!(m.lf_groups.len(), 1);
            assert_eq!(m.alpha_tiles, vec![None]);
            assert!(m.tokens.custom_orders.is_none());
        },
        FrameSections::Single(_) => panic!("expected group sections"),
    }
}

#[test]
fn frame_planning_reports_tokenizer_errors() {
    let mut f = frame(320, 24);
    f.map[3] = 0x80 | 33;
    let r = plan_vardct_frame(
        f.width, f.height, f.bw, f.bh, 100, 16, &f.dc, &f.dc, &f.dc, &f.ac_x, &f.ac_y, &f.ac_b, &f.quant,
        &f.map, &f.cfl, &f.cfl, false, None, None, 7, false,
    );
    assert!(matches!(r, Err(Error::InvalidVarDCTTransform(33))));
    let mut g = frame(8, 8);
    g.map[0] = 0x80 | 33;
    let r = plan_vardct_frame(
        g.width, g.height, g.bw, g.bh, 100, 16, &g.dc, &g.dc, &g.dc, &g.ac_x, &g.ac_y, &g.ac_b, &g.quant,
        &g.map, &g.cfl, &g.cfl, false, None, None, 7, false,
    );
    assert!(matches!(r, Err(Error::InvalidVarDCTTransform(33))));
}

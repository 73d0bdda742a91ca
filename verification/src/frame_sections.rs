use vstd::prelude::*;
use crate::effort::{choose_progressive_pass_plan, spec_pass_plan};
use crate::error::Error;
use crate::frame_plan::{
    alpha_group_tile, div_ceil, encode_lf_group_sections, frame_layout, lemma_ceil_le,
    lemma_div_ceil, lemma_group_cell, spec_div_ceil, spec_frame_pass_tokens, spec_frame_passes_ok,
    spec_group_rect, spec_lf_groups_ok, tokenize_frame_passes, FrameLayout, FramePassTokens,
};
use crate::group_sections::{
    encode_single_group_section, spec_crop, spec_dc_and_metadata_ok, spec_frame_no_min, spec_lf_group_fields,
    spec_single_group_section, spec_window_in,
};
use crate::header::{
    encode_lf_global_section, spec_field_views, spec_frame_header_fields, spec_lf_global_fields,
    write_vardct_frame_header_full, FrameHeaderConfig, HeaderField,
};

verus! {

/// Duration and last-frame flag of an animation frame.
pub struct AnimFrameParams {
    pub duration: u32,
    pub is_last: bool,
}

/// The alpha tile of pixel group `g` (256 x 256 pixels, `groups_x` per row)
/// of a `width` x `height` alpha plane, widened to `i32`, with its width and
/// height.
pub open spec fn spec_alpha_tile(alpha: Seq<u8>, width: int, height: int, g: int, groups_x: int) -> (
    Seq<i32>,
    int,
    int,
) {
    let (x0, y0, w, h) = spec_group_rect(g, groups_x, 256, width, height);
    (spec_crop(Seq::new(alpha.len(), |i: int| alpha[i] as i32), width, x0, y0, w, h), w, h)
}

/// Whether the alpha tiles of the first `num_groups` pixel groups can be cut
/// from an alpha plane of `alpha_len` samples.
pub open spec fn spec_alpha_tiles_ok(
    alpha_len: int,
    width: int,
    height: int,
    groups_x: int,
    num_groups: int,
) -> bool {
    &&& width + 256 <= usize::MAX
    &&& height + 256 <= usize::MAX
    &&& num_groups > 0 ==> groups_x > 0
    &&& forall|g: int|
        0 <= g < num_groups ==> {
            &&& (#[trigger] (g % groups_x)) * 256 <= width
            &&& (g / groups_x) * 256 <= height
            &&& ({
                let (x0, y0, w, h) = spec_group_rect(g, groups_x, 256, width, height);
                spec_window_in(alpha_len, width, x0, y0, w, h)
            })
        }
}

/// The alpha tiles of the first `num_groups` pixel groups: none at all
/// without alpha.
pub fn alpha_group_tiles(
    alpha: Option<&[u8]>,
    width: usize,
    height: usize,
    groups_x: usize,
    num_groups: usize,
) -> (r: Vec<Option<(Vec<i32>, usize, usize)>>)
    requires
        alpha matches Some(a) ==> spec_alpha_tiles_ok(
            a@.len() as int,
            width as int,
            height as int,
            groups_x as int,
            num_groups as int,
        ),
    ensures
        r@.len() == num_groups,
        forall|g: int|
            0 <= g < num_groups ==> match (#[trigger] r@[g]) {
                None => alpha is None,
                Some(t) => alpha matches Some(a) && (t.0@, t.1 as int, t.2 as int) == spec_alpha_tile(
                    a@,
                    width as int,
                    height as int,
                    g,
                    groups_x as int,
                ),
            },
{
    let mut out: Vec<Option<(Vec<i32>, usize, usize)>> = Vec::new();
    let mut g: usize = 0;
    while g < num_groups
        invariant
            g <= num_groups,
            alpha matches Some(a) ==> spec_alpha_tiles_ok(
                a@.len() as int,
                width as int,
                height as int,
                groups_x as int,
                num_groups as int,
            ),
            out@.len() == g,
            forall|h: int|
                0 <= h < g ==> match (#[trigger] out@[h]) {
                    None => alpha is None,
                    Some(t) => alpha matches Some(a) && (t.0@, t.1 as int, t.2 as int) == spec_alpha_tile(
                        a@,
                        width as int,
                        height as int,
                        h,
                        groups_x as int,
                    ),
                },
        decreases num_groups - g,
    {
        match alpha {
            Some(a) => {
                proof {
                    assert((g as int % groups_x as int) * 256 <= width);
                }
                let t = alpha_group_tile(a, width, height, g, groups_x);
                out.push(Some(t));
            },
            None => {
                out.push(None);
            },
        }
        g = g + 1;
    }
    out
}

/// The sections of a multi-group frame that come before entropy coding: the
/// LF global section, the LF group sections, the alpha tiles of the HF
/// groups and the HF groups' tokens.
pub struct MultiGroupSections {
    pub lf_global: Vec<HeaderField>,
    pub lf_groups: Vec<Vec<HeaderField>>,
    pub alpha_tiles: Vec<Option<(Vec<i32>, usize, usize)>>,
    pub tokens: FramePassTokens,
}

/// What a multi-group frame needs of its inputs: its coefficients and maps
/// cover it with no `i32::MIN` among the coefficients coded as tokens, the
/// DC samples and maps of every LF group can be written and the alpha tiles
/// can be cut.
pub open spec fn spec_multi_group_ok(
    width: int,
    height: int,
    bw: int,
    bh: int,
    dc_y: Seq<i32>,
    dc_x: Seq<i32>,
    dc_b: Seq<i32>,
    ac_x: Seq<i32>,
    ac_y: Seq<i32>,
    ac_b: Seq<i32>,
    raw_quant_map: Seq<u8>,
    transform_map: Seq<u8>,
    ytox_map: Seq<i32>,
    ytob_map: Seq<i32>,
    alpha: Option<Seq<u8>>,
    num_passes: int,
) -> bool {
    &&& spec_frame_passes_ok(ac_x, ac_y, ac_b, transform_map, raw_quant_map, bw, bh, num_passes)
    &&& bw + 256 <= usize::MAX
    &&& bh + 256 <= usize::MAX
    &&& spec_lf_groups_ok(dc_y, dc_x, dc_b, raw_quant_map, transform_map, ytox_map, ytob_map, bw, bh)
    &&& alpha matches Some(a) ==> spec_alpha_tiles_ok(
        a.len() as int,
        width,
        height,
        spec_div_ceil(bw, 32),
        spec_div_ceil(bw, 32) * spec_div_ceil(bh, 32),
    )
}

/// The sections of a multi-group frame, or the tokenizer's first error.
pub open spec fn spec_multi_group_sections(
    r: Result<MultiGroupSections, Error>,
    width: int,
    height: int,
    bw: int,
    bh: int,
    global_scale: u32,
    quant_lf: u32,
    dc_y: Seq<i32>,
    dc_x: Seq<i32>,
    dc_b: Seq<i32>,
    ac_x: Seq<i32>,
    ac_y: Seq<i32>,
    ac_b: Seq<i32>,
    raw_quant_map: Seq<u8>,
    transform_map: Seq<u8>,
    ytox_map: Seq<i32>,
    ytob_map: Seq<i32>,
    alpha: Option<Seq<u8>>,
    num_passes: usize,
    pass_shifts: Seq<u32>,
    effort: u8,
) -> bool {
    let gx = spec_div_ceil(bw, 32);
    let ng = gx * spec_div_ceil(bh, 32);
    let lx = spec_div_ceil(bw, 256);
    let nl = lx * spec_div_ceil(bh, 256);
    match r {
        Ok(m) => {
            &&& spec_frame_pass_tokens(
                Ok(m.tokens),
                ac_x,
                ac_y,
                ac_b,
                transform_map,
                raw_quant_map,
                bw,
                bh,
                num_passes,
                pass_shifts,
                effort,
            )
            &&& spec_field_views(m.lf_global@) == spec_lf_global_fields(
                global_scale,
                quant_lf,
                None,
                alpha is Some,
            )
            &&& m.lf_groups@.len() == nl
            &&& forall|g: int|
                0 <= g < nl ==> spec_field_views((#[trigger] m.lf_groups@[g])@) == spec_lf_group_fields(
                    g % lx,
                    g / lx,
                    bw,
                    bh,
                    256,
                    dc_y,
                    dc_x,
                    dc_b,
                    raw_quant_map,
                    transform_map,
                    ytox_map,
                    ytob_map,
                )
            &&& m.alpha_tiles@.len() == ng
            &&& forall|g: int|
                0 <= g < ng ==> match (#[trigger] m.alpha_tiles@[g]) {
                    None => alpha is None,
                    Some(t) => alpha matches Some(a) && (t.0@, t.1 as int, t.2 as int) == spec_alpha_tile(
                        a,
                        width,
                        height,
                        g,
                        gx,
                    ),
                }
        },
        Err(e) => spec_frame_pass_tokens(
            Err(e),
            ac_x,
            ac_y,
            ac_b,
            transform_map,
            raw_quant_map,
            bw,
            bh,
            num_passes,
            pass_shifts,
            effort,
        ),
    }
}

/// Builds the sections of a multi-group frame up to entropy coding: the
/// alpha tiles of the HF groups, the HF groups' tokens over the passes (see
/// `tokenize_frame_passes`), then the LF global section (no block-context
/// map) and the sections of the LF groups (256 x 256 blocks).
pub fn plan_multi_group_sections(
    width: usize,
    height: usize,
    bw: usize,
    bh: usize,
    global_scale: u32,
    quant_lf: u32,
    dc_y: &[i32],
    dc_x: &[i32],
    dc_b: &[i32],
    ac_x: &[i32],
    ac_y: &[i32],
    ac_b: &[i32],
    raw_quant_map: &[u8],
    transform_map: &[u8],
    ytox_map: &[i32],
    ytob_map: &[i32],
    alpha: Option<&[u8]>,
    num_passes: usize,
    pass_shifts: &[u32],
    effort: u8,
) -> (r: Result<MultiGroupSections, Error>)
    requires
        spec_multi_group_ok(
            width as int,
            height as int,
            bw as int,
            bh as int,
            dc_y@,
            dc_x@,
            dc_b@,
            ac_x@,
            ac_y@,
            ac_b@,
            raw_quant_map@,
            transform_map@,
            ytox_map@,
            ytob_map@,
            match alpha {
                Some(a) => Some(a@),
                None => None,
            },
            num_passes as int,
        ),
    ensures
        spec_multi_group_sections(
            r,
            width as int,
            height as int,
            bw as int,
            bh as int,
            global_scale,
            quant_lf,
            dc_y@,
            dc_x@,
            dc_b@,
            ac_x@,
            ac_y@,
            ac_b@,
            raw_quant_map@,
            transform_map@,
            ytox_map@,
            ytob_map@,
            match alpha {
                Some(a) => Some(a@),
                None => None,
            },
            num_passes,
            pass_shifts@,
            effort,
        ),
{
    let groups_x = div_ceil(bw, 32);
    let groups_y = div_ceil(bh, 32);
    proof {
        lemma_ceil_le(bw as int, 32);
        lemma_ceil_le(bh as int, 32);
        assert(groups_x * groups_y <= bw * bh) by (nonlinear_arith)
            requires
                1 <= groups_x <= bw,
                1 <= groups_y <= bh,
        ;
        assert(bw * bh <= bw * bh * 64) by (nonlinear_arith)
            requires
                bw >= 1,
                bh >= 1,
        ;
    }
    let num_groups = groups_x * groups_y;
    let alpha_tiles = alpha_group_tiles(alpha, width, height, groups_x, num_groups);
    let tokens = match tokenize_frame_passes(
        ac_x,
        ac_y,
        ac_b,
        transform_map,
        raw_quant_map,
        bw,
        bh,
        num_passes,
        pass_shifts,
        effort,
    ) {
        Ok(t) => t,
        Err(e) => {
            return Err(e);
        },
    };
    let lf_global = encode_lf_global_section(global_scale, quant_lf, None, alpha.is_some());
    let lf_groups = encode_lf_group_sections(
        bw,
        bh,
        dc_y,
        dc_x,
        dc_b,
        raw_quant_map,
        transform_map,
        ytox_map,
        ytob_map,
    );
    Ok(MultiGroupSections { lf_global, lf_groups, alpha_tiles, tokens })
}

/// The sections of a frame: one section for a frame that fits in one
/// group, else the multi-group sections.
pub enum FrameSections {
    Single(Vec<HeaderField>),
    Multi(MultiGroupSections),
}

/// A VarDCT frame up to entropy coding: its pass plan, its header, its group
/// layout and its sections.
pub struct FramePlan {
    pub num_passes: usize,
    pub pass_shifts: Vec<u32>,
    pub header: Vec<HeaderField>,
    pub layout: FrameLayout,
    pub sections: FrameSections,
}

/// Whether a frame of `bw` x `bh` blocks is written as a single section: it
/// has one HF group and is not progressive without alpha.
pub open spec fn spec_frame_single(bw: int, bh: int, progressive: bool, has_alpha: bool) -> bool {
    spec_div_ceil(bw, 32) * spec_div_ceil(bh, 32) == 1 && !(progressive && !has_alpha)
}

/// What a frame needs of its inputs: maps of one entry per block, and what
/// the single section or the multi-group sections need.
pub open spec fn spec_frame_inputs_ok(
    width: usize,
    height: usize,
    bw: int,
    bh: int,
    dc_y: Seq<i32>,
    dc_x: Seq<i32>,
    dc_b: Seq<i32>,
    ac_x: Seq<i32>,
    ac_y: Seq<i32>,
    ac_b: Seq<i32>,
    raw_quant_map: Seq<u8>,
    transform_map: Seq<u8>,
    ytox_map: Seq<i32>,
    ytob_map: Seq<i32>,
    alpha: Option<Seq<u8>>,
    effort: u8,
    progressive: bool,
) -> bool {
    &&& raw_quant_map.len() == bw * bh
    &&& transform_map.len() == bw * bh
    &&& if spec_frame_single(bw, bh, progressive, alpha is Some) {
        &&& spec_dc_and_metadata_ok(
            dc_y,
            dc_x,
            dc_b,
            raw_quant_map,
            transform_map,
            ytox_map,
            ytob_map,
            bw,
            bh,
            0,
            0,
            bw,
            bh,
        )
        &&& ac_x.len() >= bw * bh * 64
        &&& ac_y.len() >= bw * bh * 64
        &&& ac_b.len() >= bw * bh * 64
        &&& spec_frame_no_min(ac_x, ac_y, ac_b, transform_map, bw, bh)
    } else {
        spec_multi_group_ok(
            width as int,
            height as int,
            bw,
            bh,
            dc_y,
            dc_x,
            dc_b,
            ac_x,
            ac_y,
            ac_b,
            raw_quant_map,
            transform_map,
            ytox_map,
            ytob_map,
            alpha,
            spec_pass_plan(progressive, alpha is Some, effort, width, height).0 as int,
        )
    }
}

/// Plans a VarDCT frame up to entropy coding: chooses the pass plan, writes
/// the frame header (one extra channel with alpha; the animation duration
/// and last-frame flag, else a still last frame), lays out the groups and
/// builds either the single section or the multi-group sections. Fails with
/// the tokenizer's error. The codestream header, the table of contents and
/// the entropy-coded HF sections are not part of the plan.
pub fn plan_vardct_frame(
    width: usize,
    height: usize,
    bw: usize,
    bh: usize,
    global_scale: u32,
    quant_lf: u32,
    dc_y: &[i32],
    dc_x: &[i32],
    dc_b: &[i32],
    ac_x: &[i32],
    ac_y: &[i32],
    ac_b: &[i32],
    raw_quant_map: &[u8],
    transform_map: &[u8],
    ytox_map: &[i32],
    ytob_map: &[i32],
    use_gab: bool,
    anim_params: Option<&AnimFrameParams>,
    alpha: Option<&[u8]>,
    effort: u8,
    progressive: bool,
) -> (r: Result<FramePlan, Error>)
    requires
        spec_frame_inputs_ok(
            width,
            height,
            bw as int,
            bh as int,
            dc_y@,
            dc_x@,
            dc_b@,
            ac_x@,
            ac_y@,
            ac_b@,
            raw_quant_map@,
            transform_map@,
            ytox_map@,
            ytob_map@,
            match alpha {
                Some(a) => Some(a@),
                None => None,
            },
            effort,
            progressive,
        ),
    ensures
        ({
            let av = match alpha {
                Some(a) => Some(a@),
                None => None,
            };
            let plan = spec_pass_plan(progressive, alpha is Some, effort, width, height);
            let single = spec_frame_single(bw as int, bh as int, progressive, alpha is Some);
            let one = spec_single_group_section(
                bw as int,
                bh as int,
                width,
                height,
                global_scale,
                quant_lf,
                dc_y@,
                dc_x@,
                dc_b@,
                ac_x@,
                ac_y@,
                ac_b@,
                raw_quant_map@,
                transform_map@,
                ytox_map@,
                ytob_map@,
                av,
                effort,
            );
            match r {
                Ok(f) => {
                    &&& f.num_passes == plan.0
                    &&& f.pass_shifts@ == plan.1
                    &&& f.header@ == spec_frame_header_fields(
                        use_gab,
                        if alpha is Some {
                            1u32
                        } else {
                            0u32
                        },
                        anim_params is Some,
                        match anim_params {
                            Some(a) => a.duration,
                            None => 0u32,
                        },
                        match anim_params {
                            Some(a) => a.is_last,
                            None => true,
                        },
                        plan.0 as u32,
                        plan.1,
                    )
                    &&& f.layout.num_groups_x == spec_div_ceil(bw as int, 32)
                    &&& f.layout.num_groups == spec_div_ceil(bw as int, 32) * spec_div_ceil(bh as int, 32)
                    &&& f.layout.num_lf_groups_x == spec_div_ceil(bw as int, 256)
                    &&& f.layout.num_lf_groups == spec_div_ceil(bw as int, 256) * spec_div_ceil(
                        bh as int,
                        256,
                    )
                    &&& f.layout.single_group == single
                    &&& match f.sections {
                        FrameSections::Single(s) => single && one == Ok::<Seq<crate::header::FieldView>, Error>(
                            spec_field_views(s@),
                        ),
                        FrameSections::Multi(m) => !single && spec_multi_group_sections(
                            Ok(m),
                            width as int,
                            height as int,
                            bw as int,
                            bh as int,
                            global_scale,
                            quant_lf,
                            dc_y@,
                            dc_x@,
                            dc_b@,
                            ac_x@,
                            ac_y@,
                            ac_b@,
                            raw_quant_map@,
                            transform_map@,
                            ytox_map@,
                            ytob_map@,
                            av,
                            plan.0,
                            plan.1,
                            effort,
                        ),
                    }
                },
                Err(e) => if single {
                    one == Err::<Seq<crate::header::FieldView>, Error>(e)
                } else {
                    spec_frame_pass_tokens(
                        Err(e),
                        ac_x@,
                        ac_y@,
                        ac_b@,
                        transform_map@,
                        raw_quant_map@,
                        bw as int,
                        bh as int,
                        plan.0,
                        plan.1,
                        effort,
                    )
                },
            }
        }),
{
    let has_alpha = alpha.is_some();
    let _len = transform_map.len();
    let (num_passes, pass_shifts) = choose_progressive_pass_plan(progressive, has_alpha, effort, width, height);
    let mut header: Vec<HeaderField> = Vec::new();
    let cfg = FrameHeaderConfig {
        use_gab,
        num_extra_channels: if has_alpha {
            1
        } else {
            0
        },
        have_animation: anim_params.is_some(),
        duration: match anim_params {
            Some(a) => a.duration,
            None => 0,
        },
        is_last: match anim_params {
            Some(a) => a.is_last,
            None => true,
        },
        num_passes: num_passes as u32,
        pass_shifts: pass_shifts.clone(),
    };
    write_vardct_frame_header_full(&mut header, &cfg);
    assert(header@ =~= spec_frame_header_fields(
        use_gab,
        cfg.num_extra_channels,
        cfg.have_animation,
        cfg.duration,
        cfg.is_last,
        cfg.num_passes,
        cfg.pass_shifts@,
    ));
    let layout = frame_layout(bw, bh, progressive, has_alpha);
    if layout.single_group {
        let section = match encode_single_group_section(
            bw,
            bh,
            width,
            height,
            global_scale,
            quant_lf,
            dc_y,
            dc_x,
            dc_b,
            ac_x,
            ac_y,
            ac_b,
            raw_quant_map,
            transform_map,
            ytox_map,
            ytob_map,
            alpha,
            effort,
        ) {
            Ok(s) => s,
            Err(e) => {
                return Err(e);
            },
        };
        Ok(FramePlan { num_passes, pass_shifts, header, layout, sections: FrameSections::Single(section) })
    } else {
        let m = match plan_multi_group_sections(
            width,
            height,
            bw,
            bh,
            global_scale,
            quant_lf,
            dc_y,
            dc_x,
            dc_b,
            ac_x,
            ac_y,
            ac_b,
            raw_quant_map,
            transform_map,
            ytox_map,
            ytob_map,
            alpha,
            num_passes,
            pass_shifts.as_slice(),
            effort,
        ) {
            Ok(m) => m,
            Err(e) => {
                return Err(e);
            },
        };
        Ok(FramePlan { num_passes, pass_shifts, header, layout, sections: FrameSections::Multi(m) })
    }
}

} // verus!

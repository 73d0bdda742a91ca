use vstd::prelude::*;
use vstd::arithmetic::div_mod::lemma_fundamental_div_mod_converse;
use crate::context_map::{
    build_ac_context_map_candidates, num_clusters_in_context_map, push_unique, spec_candidates,
    spec_dedup_step, spec_map_views, spec_num_block_contexts, spec_num_clusters, spec_sum,
};
use crate::coeff_order::{
    compute_optimal_coeff_orders_8x8, lemma_optimal_order_valid, lemma_zigzag_facts, spec_contains,
    spec_region_readable, spec_zigzag_8x8,
};
use crate::group_sections::{
    encode_lf_group_section, lemma_rect_in_map, lemma_whole_frame_readable, orders_are_zigzag,
    spec_crop, spec_dc_and_metadata_ok, spec_frame_no_min, spec_group_span, spec_lf_group_fields,
    spec_single_group_orders, spec_single_group_region, spec_window_in,
};
use crate::error::Error;
use crate::header::{spec_field_views, HeaderField};
use crate::effort::{effort_params, lemma_pass_value_not_min, spec_effort_params, spec_pass_value, split_ac_into_passes};
use crate::tokenize::{
    lemma_cell_order_in_transform, lemma_region_no_min_any_orders, lemma_region_token_contexts,
    lemma_storage_in_region, spec_cell_no_min, spec_cell_order, spec_cell_tokenized,
    spec_cell_transform, spec_cell_vals, spec_contexts_below, spec_hf_region, spec_orders_bounded,
    spec_region_no_min, spec_tokenize_region, tokenize_hf_region, AcToken, HfRegion,
};

verus! {

/// `ceil(n / d)`.
pub open spec fn spec_div_ceil(n: int, d: int) -> int {
    (n + d - 1) / d
}

pub(crate) proof fn lemma_div_ceil(n: int, d: int)
    requires
        n >= 0,
        d >= 1,
    ensures
        spec_div_ceil(n, d) == n / d + if n % d != 0 {
            1int
        } else {
            0int
        },
        n % d != 0 ==> d >= 2 && n / d < n,
{
    let q = n / d;
    let r = n % d;
    vstd::arithmetic::div_mod::lemma_fundamental_div_mod(n, d);
    assert(n == q * d + r) by (nonlinear_arith)
        requires
            n == d * q + r,
    ;
    if r != 0 {
        assert(n + d - 1 == (q + 1) * d + (r - 1)) by (nonlinear_arith)
            requires
                n == q * d + r,
        ;
        lemma_fundamental_div_mod_converse(n + d - 1, d, q + 1, r - 1);
        assert(q < n) by (nonlinear_arith)
            requires
                n == q * d + r,
                d >= 2,
                r >= 1,
                q >= 0,
        ;
    } else {
        assert(n + d - 1 == q * d + (d - 1));
        lemma_fundamental_div_mod_converse(n + d - 1, d, q, d - 1);
    }
}

pub(crate) fn div_ceil(n: usize, d: usize) -> (r: usize)
    requires
        d > 0,
    ensures
        r == spec_div_ceil(n as int, d as int),
{
    proof {
        lemma_div_ceil(n as int, d as int);
    }
    n / d + if n % d != 0 {
        1
    } else {
        0
    }
}

/// How a frame of `bw` x `bh` blocks is cut into groups.
pub struct FrameLayout {
    /// HF groups (32 x 32 blocks) across and down.
    pub num_groups_x: usize,
    pub num_groups_y: usize,
    /// Number of HF groups.
    pub num_groups: usize,
    /// LF groups (256 x 256 blocks) across and down.
    pub num_lf_groups_x: usize,
    pub num_lf_groups_y: usize,
    /// Number of LF groups.
    pub num_lf_groups: usize,
    /// Whether the whole frame is written as one section.
    pub single_group: bool,
}

pub(crate) proof fn lemma_ceil_le(n: int, d: int)
    requires
        n >= 1,
        d >= 1,
    ensures
        1 <= spec_div_ceil(n, d) <= n,
{
    assert((n + d - 1) / d <= n) by (nonlinear_arith)
        requires
            n >= 1,
            d >= 1,
    ;
    assert((n + d - 1) / d >= 1) by (nonlinear_arith)
        requires
            n >= 1,
            d >= 1,
    ;
}

/// The group layout of a frame: HF groups of 32 x 32 blocks, LF groups of
/// 256 x 256 blocks; the frame is one section when it has a single HF
/// group, unless it is progressive without alpha.
pub fn frame_layout(bw: usize, bh: usize, progressive: bool, has_alpha: bool) -> (r: FrameLayout)
    requires
        bw * bh <= usize::MAX,
    ensures
        r.num_groups_x == spec_div_ceil(bw as int, 32),
        r.num_groups_y == spec_div_ceil(bh as int, 32),
        r.num_groups == r.num_groups_x * r.num_groups_y,
        r.num_lf_groups_x == spec_div_ceil(bw as int, 256),
        r.num_lf_groups_y == spec_div_ceil(bh as int, 256),
        r.num_lf_groups == r.num_lf_groups_x * r.num_lf_groups_y,
        r.single_group == (r.num_groups == 1 && !(progressive && !has_alpha)),
{
    let nx = div_ceil(bw, 32);
    let ny = div_ceil(bh, 32);
    let lx = div_ceil(bw, 256);
    let ly = div_ceil(bh, 256);
    proof {
        if bw >= 1 && bh >= 1 {
            lemma_ceil_le(bw as int, 32);
            lemma_ceil_le(bh as int, 32);
            lemma_ceil_le(bw as int, 256);
            lemma_ceil_le(bh as int, 256);
            assert(nx * ny <= bw * bh) by (nonlinear_arith)
                requires
                    1 <= nx <= bw,
                    1 <= ny <= bh,
            ;
            assert(lx * ly <= bw * bh) by (nonlinear_arith)
                requires
                    1 <= lx <= bw,
                    1 <= ly <= bh,
            ;
        } else {
            assert(nx == 0 || ny == 0);
            assert(lx == 0 || ly == 0);
            assert(nx * ny == 0) by (nonlinear_arith)
                requires
                    nx == 0 || ny == 0,
            ;
            assert(lx * ly == 0) by (nonlinear_arith)
                requires
                    lx == 0 || ly == 0,
            ;
        }
    }
    let num_groups = nx * ny;
    FrameLayout {
        num_groups_x: nx,
        num_groups_y: ny,
        num_groups,
        num_lf_groups_x: lx,
        num_lf_groups_y: ly,
        num_lf_groups: lx * ly,
        single_group: num_groups == 1 && !(progressive && !has_alpha),
    }
}

/// Rectangle (x0, y0, width, height) of group `g` in raster order, with
/// `groups_x` groups per row, groups of `dim` x `dim`, in a `total_w` x
/// `total_h` plane.
pub open spec fn spec_group_rect(g: int, groups_x: int, dim: int, total_w: int, total_h: int) -> (
    int,
    int,
    int,
    int,
) {
    let (x0, w) = spec_group_span(g % groups_x, dim, total_w);
    let (y0, h) = spec_group_span(g / groups_x, dim, total_h);
    (x0, y0, w, h)
}

/// The rectangle of group `g`.
pub fn group_rect(g: usize, groups_x: usize, dim: usize, total_w: usize, total_h: usize) -> (r: (
    usize,
    usize,
    usize,
    usize,
))
    requires
        groups_x > 0,
        (g % groups_x) * dim <= total_w,
        (g / groups_x) * dim <= total_h,
        (g % groups_x) * dim + dim <= usize::MAX,
        (g / groups_x) * dim + dim <= usize::MAX,
    ensures
        (r.0 as int, r.1 as int, r.2 as int, r.3 as int) == spec_group_rect(
            g as int,
            groups_x as int,
            dim as int,
            total_w as int,
            total_h as int,
        ),
{
    let x0 = (g % groups_x) * dim;
    let y0 = (g / groups_x) * dim;
    let xe = if x0 + dim < total_w {
        x0 + dim
    } else {
        total_w
    };
    let ye = if y0 + dim < total_h {
        y0 + dim
    } else {
        total_h
    };
    (x0, y0, xe - x0, ye - y0)
}

/// The alpha samples of pixel group `g` (256 x 256 pixels, `groups_x` per
/// row), widened to `i32`, with the tile's width and height.
pub fn alpha_group_tile(
    alpha: &[u8],
    width: usize,
    height: usize,
    g: usize,
    groups_x: usize,
) -> (r: (Vec<i32>, usize, usize))
    requires
        groups_x > 0,
        (g % groups_x) * 256 <= width,
        (g / groups_x) * 256 <= height,
        (g % groups_x) * 256 + 256 <= usize::MAX,
        (g / groups_x) * 256 + 256 <= usize::MAX,
        ({
            let (x0, y0, w, h) = spec_group_rect(g as int, groups_x as int, 256, width as int, height as int);
            spec_window_in(alpha@.len() as int, width as int, x0, y0, w, h)
        }),
    ensures
        ({
            let (x0, y0, w, h) = spec_group_rect(g as int, groups_x as int, 256, width as int, height as int);
            &&& r.1 == w
            &&& r.2 == h
            &&& r.0@ == spec_crop(
                Seq::new(alpha@.len(), |i: int| alpha@[i] as i32),
                width as int,
                x0,
                y0,
                w,
                h,
            )
        }),
{
    let (x0, y0, pw, ph) = group_rect(g, groups_x, 256, width, height);
    let ghost wide = Seq::new(alpha@.len(), |i: int| alpha@[i] as i32);
    let _len = alpha.len();
    let mut tile: Vec<i32> = Vec::new();
    let mut y: usize = 0;
    while y < ph
        invariant
            y <= ph,
            y0 + ph <= height,
            _len == alpha@.len(),
            wide == Seq::new(alpha@.len(), |i: int| alpha@[i] as i32),
            spec_window_in(alpha@.len() as int, width as int, x0 as int, y0 as int, pw as int, ph as int),
            tile@ == spec_crop(wide, width as int, x0 as int, y0 as int, pw as int, y as int),
        decreases ph - y,
    {
        let ghost row_start = tile@;
        if pw > 0 {
            assert((y0 + y) * width <= (y0 + ph - 1) * width) by (nonlinear_arith)
                requires
                    y < ph,
            ;
            let start = (y0 + y) * width + x0;
            let mut x: usize = 0;
            while x < pw
                invariant
                    x <= pw,
                    _len == alpha@.len(),
                    start + pw <= alpha@.len(),
                    wide == Seq::new(alpha@.len(), |i: int| alpha@[i] as i32),
                    tile@ == row_start + Seq::new(x as nat, |k: int| wide[start + k]),
                decreases pw - x,
            {
                tile.push(alpha[start + x] as i32);
                x = x + 1;
                assert(tile@ =~= row_start + Seq::new(x as nat, |k: int| wide[start + k]));
            }
        }
        y = y + 1;
        assert(tile@ =~= spec_crop(wide, width as int, x0 as int, y0 as int, pw as int, y as int));
    }
    (tile, pw, ph)
}

/// Number of the first `n` tokens whose context is `c`.
pub open spec fn spec_context_count(tokens: Seq<AcToken>, c: int, n: int) -> nat
    decreases n,
{
    if n <= 0 {
        0
    } else {
        spec_context_count(tokens, c, n - 1) + if tokens[n - 1].context == c {
            1nat
        } else {
            0nat
        }
    }
}

/// Number of tokens of the first `g` groups whose context is `c`.
pub open spec fn spec_groups_context_count(groups: Seq<Seq<AcToken>>, c: int, g: int) -> nat
    decreases g,
{
    if g <= 0 {
        0
    } else {
        spec_groups_context_count(groups, c, g - 1) + spec_context_count(
            groups[g - 1],
            c,
            groups[g - 1].len() as int,
        )
    }
}

/// Total number of tokens of the first `g` groups.
pub open spec fn spec_total_tokens(groups: Seq<Seq<AcToken>>, g: int) -> nat
    decreases g,
{
    if g <= 0 {
        0
    } else {
        spec_total_tokens(groups, g - 1) + groups[g - 1].len()
    }
}

pub open spec fn spec_token_lists(groups: Seq<Vec<AcToken>>) -> Seq<Seq<AcToken>> {
    groups.map_values(|v: Vec<AcToken>| v@)
}

proof fn lemma_context_count_le(tokens: Seq<AcToken>, c: int, n: int)
    requires
        0 <= n,
    ensures
        spec_context_count(tokens, c, n) <= n,
    decreases n,
{
    if n > 0 {
        lemma_context_count_le(tokens, c, n - 1);
    }
}

proof fn lemma_groups_count_le(groups: Seq<Seq<AcToken>>, c: int, g: int)
    requires
        0 <= g,
    ensures
        spec_groups_context_count(groups, c, g) <= spec_total_tokens(groups, g),
    decreases g,
{
    if g > 0 {
        lemma_groups_count_le(groups, c, g - 1);
        lemma_context_count_le(groups[g - 1], c, groups[g - 1].len() as int);
    }
}

proof fn lemma_total_tokens_mono(groups: Seq<Seq<AcToken>>, a: int, b: int)
    requires
        0 <= a <= b,
    ensures
        spec_total_tokens(groups, a) <= spec_total_tokens(groups, b),
    decreases b,
{
    if b > a {
        lemma_total_tokens_mono(groups, a, b - 1);
    }
}

/// How many tokens of all groups fall in each of the `num_ac_contexts` contexts.
pub fn count_token_contexts(groups: &[Vec<AcToken>], num_ac_contexts: usize) -> (r: Vec<u64>)
    requires
        forall|g: int, i: int|
            0 <= g < groups@.len() && 0 <= i < groups@[g]@.len() ==> #[trigger] groups@[g]@[i].context
                < num_ac_contexts,
        spec_total_tokens(spec_token_lists(groups@), groups@.len() as int) <= u64::MAX,
    ensures
        r@.len() == num_ac_contexts,
        forall|c: int|
            0 <= c < num_ac_contexts ==> #[trigger] r@[c] == spec_groups_context_count(
                spec_token_lists(groups@),
                c,
                groups@.len() as int,
            ),
{
    let ghost lists = spec_token_lists(groups@);
    let ng = groups.len();
    let mut counts: Vec<u64> = Vec::new();
    let mut c: usize = 0;
    while c < num_ac_contexts
        invariant
            c <= num_ac_contexts,
            counts@.len() == c,
            forall|t: int| 0 <= t < c ==> #[trigger] counts@[t] == 0,
        decreases num_ac_contexts - c,
    {
        counts.push(0);
        c = c + 1;
    }
    let mut g: usize = 0;
    while g < ng
        invariant
            g <= ng,
            ng == groups@.len(),
            lists == spec_token_lists(groups@),
            counts@.len() == num_ac_contexts,
            spec_total_tokens(lists, ng as int) <= u64::MAX,
            forall|gg: int, i: int|
                0 <= gg < groups@.len() && 0 <= i < groups@[gg]@.len() ==> #[trigger] groups@[gg]@[i].context
                    < num_ac_contexts,
            forall|t: int|
                0 <= t < num_ac_contexts ==> #[trigger] counts@[t] == spec_groups_context_count(
                    lists,
                    t,
                    g as int,
                ),
        decreases ng - g,
    {
        let tokens = &groups[g];
        let nt = tokens.len();
        let ghost before = counts@;
        let mut i: usize = 0;
        while i < nt
            invariant
                i <= nt,
                g < ng,
                ng == groups@.len(),
                lists == spec_token_lists(groups@),
                nt == groups@[g as int]@.len(),
                *tokens == groups@[g as int],
                counts@.len() == num_ac_contexts,
                spec_total_tokens(lists, ng as int) <= u64::MAX,
                forall|gg: int, j: int|
                    0 <= gg < groups@.len() && 0 <= j < groups@[gg]@.len() ==> #[trigger] groups@[gg]@[j].context
                        < num_ac_contexts,
                forall|t: int|
                    0 <= t < num_ac_contexts ==> #[trigger] counts@[t] == spec_groups_context_count(
                        lists,
                        t,
                        g as int,
                    ) + spec_context_count(lists[g as int], t, i as int),
            decreases nt - i,
        {
            let ctx = tokens[i].context;
            proof {
                assert(lists[g as int] == groups@[g as int]@);
                lemma_groups_count_le(lists, ctx as int, g + 1);
                lemma_context_count_le(lists[g as int], ctx as int, i + 1);
                lemma_total_tokens_mono(lists, g + 1, ng as int);
                assert(spec_groups_context_count(lists, ctx as int, g as int) + spec_context_count(
                    lists[g as int],
                    ctx as int,
                    i + 1,
                ) <= spec_groups_context_count(lists, ctx as int, g + 1)) by {
                    lemma_context_count_mono(lists[g as int], ctx as int, i + 1, nt as int);
                }
            }
            counts.set(ctx, counts[ctx] + 1);
            i = i + 1;
        }
        g = g + 1;
    }
    counts
}

proof fn lemma_context_count_mono(tokens: Seq<AcToken>, c: int, a: int, b: int)
    requires
        0 <= a <= b,
    ensures
        spec_context_count(tokens, c, a) <= spec_context_count(tokens, c, b),
    decreases b,
{
    if b > a {
        lemma_context_count_mono(tokens, c, a, b - 1);
    }
}

/// The candidates whose number of clusters does not exceed the number of
/// groups, in order; if none is left, the map that puts every one of the
/// `num_ac_contexts` contexts in cluster 0.
pub open spec fn spec_usable_context_maps(
    candidates: Seq<Seq<u8>>,
    num_groups: int,
    num_ac_contexts: int,
) -> Seq<Seq<u8>> {
    let kept = candidates.filter(|m: Seq<u8>| spec_num_clusters(m) <= num_groups);
    if kept.len() == 0 {
        seq![Seq::new(num_ac_contexts as nat, |i: int| 0u8)]
    } else {
        kept
    }
}

/// Keeps the context maps whose clusters fit the number of groups (the
/// histogram count is written with as many bits as the group count needs),
/// falling back to one all-zero map.
pub fn usable_context_maps(candidates: Vec<Vec<u8>>, num_groups: usize, num_ac_contexts: usize) -> (r: Vec<
    Vec<u8>,
>)
    ensures
        spec_map_views(r@) == spec_usable_context_maps(
            spec_map_views(candidates@),
            num_groups as int,
            num_ac_contexts as int,
        ),
{
    let ghost cv = spec_map_views(candidates@);
    let n = candidates.len();
    let mut kept: Vec<Vec<u8>> = Vec::new();
    let mut i: usize = 0;
    while i < n
        invariant
            i <= n,
            n == candidates@.len(),
            cv == spec_map_views(candidates@),
            spec_map_views(kept@) == cv.take(i as int).filter(
                |m: Seq<u8>| spec_num_clusters(m) <= num_groups,
            ),
        decreases n - i,
    {
        let m = &candidates[i];
        let k = num_clusters_in_context_map(m.as_slice());
        proof {
            reveal(Seq::filter);
            assert(cv.take(i + 1).drop_last() =~= cv.take(i as int));
            cv.take(i + 1).filter_lemma(|m: Seq<u8>| spec_num_clusters(m) <= num_groups);
            assert(cv.take(i + 1).last() == m@);
        }
        let ghost before = kept@;
        if k <= num_groups {
            kept.push(m.clone());
            assert(spec_map_views(kept@) =~= spec_map_views(before).push(m@));
        }
        i = i + 1;
    }
    assert(cv.take(n as int) =~= cv);
    if kept.len() == 0 {
        let mut zeros: Vec<u8> = Vec::new();
        let mut j: usize = 0;
        while j < num_ac_contexts
            invariant
                j <= num_ac_contexts,
                zeros@ == Seq::new(j as nat, |t: int| 0u8),
            decreases num_ac_contexts - j,
        {
            zeros.push(0);
            j = j + 1;
            assert(zeros@ =~= Seq::new(j as nat, |t: int| 0u8));
        }
        let mut r: Vec<Vec<u8>> = Vec::new();
        r.push(zeros);
        assert(spec_map_views(r@) =~= seq![Seq::new(num_ac_contexts as nat, |t: int| 0u8)]);
        return r;
    }
    kept
}


/// The custom DCT8 scan orders (Y, X, B) a multi-group frame uses: the
/// frame's optimal orders when custom orders are enabled, the frame has one
/// pass and not every order is the zigzag; none otherwise.
pub open spec fn spec_frame_custom_orders(
    ac_x: Seq<i32>,
    ac_y: Seq<i32>,
    ac_b: Seq<i32>,
    map: Seq<u8>,
    bw: int,
    bh: int,
    enable_custom_orders: bool,
    num_passes: usize,
) -> Option<Seq<Seq<usize>>> {
    let o = spec_single_group_orders(ac_x, ac_y, ac_b, map, bw, bh);
    if enable_custom_orders && num_passes == 1 && !(o[0] == spec_zigzag_8x8() && o[1]
        == spec_zigzag_8x8() && o[2] == spec_zigzag_8x8()) {
        Some(o)
    } else {
        None
    }
}

/// Chooses the custom scan orders of a multi-group frame.
pub fn choose_frame_custom_orders(
    ac_x: &[i32],
    ac_y: &[i32],
    ac_b: &[i32],
    transform_map: &[u8],
    bw: usize,
    bh: usize,
    enable_custom_orders: bool,
    num_passes: usize,
) -> (r: Option<[[usize; 64]; 3]>)
    requires
        enable_custom_orders && num_passes == 1 ==> {
            &&& bw * bh <= u64::MAX
            &&& spec_region_readable(ac_y@.len() as int, transform_map@, bw as int, 0, 0, bw as int, bh as int)
            &&& spec_region_readable(ac_x@.len() as int, transform_map@, bw as int, 0, 0, bw as int, bh as int)
            &&& spec_region_readable(ac_b@.len() as int, transform_map@, bw as int, 0, 0, bw as int, bh as int)
        },
    ensures
        (match r {
            Some(o) => Some(seq![o[0]@, o[1]@, o[2]@]),
            None => None,
        }) == spec_frame_custom_orders(
            ac_x@,
            ac_y@,
            ac_b@,
            transform_map@,
            bw as int,
            bh as int,
            enable_custom_orders,
            num_passes,
        ),
        r matches Some(o) ==> forall|c: int, k: int| 0 <= c < 3 && 0 <= k < 64 ==> #[trigger] o[c]@[k] < 64,
        r matches Some(o) ==> forall|c: int|
            0 <= c < 3 ==> crate::coeff_order::spec_valid_order_8x8(#[trigger] o[c]@),
{
    if !(enable_custom_orders && num_passes == 1) {
        return None;
    }
    let orders = compute_optimal_coeff_orders_8x8(ac_y, ac_x, ac_b, transform_map, bw, 0, 0, bw, bh);
    assert(seq![orders[0]@, orders[1]@, orders[2]@] =~= spec_single_group_orders(
        ac_x@,
        ac_y@,
        ac_b@,
        transform_map@,
        bw as int,
        bh as int,
    ));
    proof {
        lemma_zigzag_facts();
        lemma_optimal_order_valid(ac_y@, transform_map@, bw as int, 0, 0, bw as int, bh as int, orders[0]@);
        lemma_optimal_order_valid(ac_x@, transform_map@, bw as int, 0, 0, bw as int, bh as int, orders[1]@);
        lemma_optimal_order_valid(ac_b@, transform_map@, bw as int, 0, 0, bw as int, bh as int, orders[2]@);
        assert forall|c: int, k: int| 0 <= c < 3 && 0 <= k < 64 implies #[trigger] orders[c]@[k] < 64 by {
            assert(spec_contains(spec_zigzag_8x8(), orders[c]@[k]));
            let j = choose|j: int| 0 <= j < spec_zigzag_8x8().len() && spec_zigzag_8x8()[j] == orders[c]@[k];
            assert(spec_zigzag_8x8()[j] < 64);
        }
    }
    if orders_are_zigzag(&orders) {
        None
    } else {
        Some(orders)
    }
}


proof fn lemma_zero_map_clusters(n: nat)
    ensures
        spec_num_clusters(Seq::new(n, |i: int| 0u8)) == 1,
    decreases n,
{
    if n > 0 {
        let z = Seq::new(n, |i: int| 0u8);
        assert(z.drop_last() =~= Seq::new((n - 1) as nat, |i: int| 0u8));
        lemma_zero_map_clusters((n - 1) as nat);
    }
}

/// Every usable context map has at most as many clusters as there are
/// groups (at least one).
pub proof fn lemma_usable_maps_fit_groups(candidates: Seq<Seq<u8>>, num_groups: int, num_ac_contexts: int)
    ensures
        forall|k: int|
            0 <= k < spec_usable_context_maps(candidates, num_groups, num_ac_contexts).len()
                ==> spec_num_clusters(
                #[trigger] spec_usable_context_maps(candidates, num_groups, num_ac_contexts)[k],
            ) <= if num_groups > 1 {
                num_groups
            } else {
                1
            },
{
    let pred = |m: Seq<u8>| spec_num_clusters(m) <= num_groups;
    candidates.filter_lemma(pred);
    lemma_zero_map_clusters(num_ac_contexts as nat);
}


/// Block (`bx`, `by`) lies in the rectangle of group `g`.
pub open spec fn spec_in_group(g: int, groups_x: int, dim: int, total_w: int, total_h: int, bx: int, by: int) -> bool {
    let (x0, y0, w, h) = spec_group_rect(g, groups_x, dim, total_w, total_h);
    x0 <= bx < x0 + w && y0 <= by < y0 + h
}

/// Every block of a `bw` x `bh` frame lies in exactly one of its groups of
/// `dim` x `dim` blocks: group `(by / dim) * groups_x + bx / dim`.
pub proof fn lemma_groups_tile_frame(bw: int, bh: int, dim: int, bx: int, by: int)
    requires
        dim >= 1,
        0 <= bx < bw,
        0 <= by < bh,
    ensures
        ({
            let nx = spec_div_ceil(bw, dim);
            let ny = spec_div_ceil(bh, dim);
            let g = (by / dim) * nx + bx / dim;
            &&& 0 <= g < nx * ny
            &&& spec_in_group(g, nx, dim, bw, bh, bx, by)
            &&& forall|g2: int| 0 <= g2 < nx * ny && #[trigger] spec_in_group(g2, nx, dim, bw, bh, bx, by) ==> g2 == g
        }),
{
    let nx = spec_div_ceil(bw, dim);
    let ny = spec_div_ceil(bh, dim);
    let gx = bx / dim;
    let gy = by / dim;
    let g = gy * nx + gx;
    vstd::arithmetic::div_mod::lemma_fundamental_div_mod(bx, dim);
    vstd::arithmetic::div_mod::lemma_fundamental_div_mod(by, dim);
    vstd::arithmetic::div_mod::lemma_fundamental_div_mod(bw + dim - 1, dim);
    vstd::arithmetic::div_mod::lemma_fundamental_div_mod(bh + dim - 1, dim);
    assert(0 <= gx < nx && 0 <= gy < ny) by (nonlinear_arith)
        requires
            bx == dim * gx + bx % dim,
            by == dim * gy + by % dim,
            0 <= bx % dim < dim,
            0 <= by % dim < dim,
            bw + dim - 1 == dim * nx + (bw + dim - 1) % dim,
            bh + dim - 1 == dim * ny + (bh + dim - 1) % dim,
            0 <= (bw + dim - 1) % dim < dim,
            0 <= (bh + dim - 1) % dim < dim,
            0 <= bx < bw,
            0 <= by < bh,
            dim >= 1,
    ;
    assert(0 <= g < nx * ny) by (nonlinear_arith)
        requires
            0 <= gx < nx,
            0 <= gy < ny,
            g == gy * nx + gx,
    ;
    lemma_fundamental_div_mod_converse(g, nx, gy, gx);
    assert(gx * dim <= bx < gx * dim + dim && gy * dim <= by < gy * dim + dim) by (nonlinear_arith)
        requires
            bx == dim * gx + bx % dim,
            by == dim * gy + by % dim,
            0 <= bx % dim < dim,
            0 <= by % dim < dim,
    ;
    assert forall|g2: int| 0 <= g2 < nx * ny && #[trigger] spec_in_group(g2, nx, dim, bw, bh, bx, by) implies g2
        == g by {
        let (hx, hy) = (g2 % nx, g2 / nx);
        vstd::arithmetic::div_mod::lemma_fundamental_div_mod(g2, nx);
        assert(hx == gx) by (nonlinear_arith)
            requires
                hx * dim <= bx < hx * dim + dim,
                gx * dim <= bx < gx * dim + dim,
                dim >= 1,
        ;
        assert(hy == gy) by (nonlinear_arith)
            requires
                hy * dim <= by < hy * dim + dim,
                gy * dim <= by < gy * dim + dim,
                dim >= 1,
        ;
        assert(g2 == nx * hy + hx);
        assert(g2 == g) by (nonlinear_arith)
            requires
                g2 == nx * hy + hx,
                g == gy * nx + gx,
                hx == gx,
                hy == gy,
        ;
    }
}


pub open spec fn spec_plane_views(v: Seq<Vec<i32>>) -> Seq<Seq<i32>> {
    v.map_values(|a: Vec<i32>| a@)
}

/// The AC region of HF group `g` in pass `p`: the pass's coefficients over
/// the group's rectangle of at most 32 x 32 blocks, 15 block contexts,
/// context offset 0, the frame's quant field and orders, no block-context
/// map.
pub open spec fn spec_group_region(
    pass_ac_x: Seq<Seq<i32>>,
    pass_ac_y: Seq<Seq<i32>>,
    pass_ac_b: Seq<Seq<i32>>,
    map: Seq<u8>,
    quant: Seq<u8>,
    bw: int,
    bh: int,
    groups_x: int,
    p: int,
    g: int,
    orders: Option<Seq<Seq<usize>>>,
) -> HfRegion {
    let (x0, y0, gw, gh) = spec_group_rect(g, groups_x, 32, bw, bh);
    HfRegion {
        ac: seq![pass_ac_y[p], pass_ac_x[p], pass_ac_b[p]],
        map,
        full_bw: bw,
        x0,
        y0,
        rw: gw,
        rh: gh,
        num_contexts: 15,
        context_offset: 0,
        orders,
        quant: Some(quant),
        block_ctx: None,
    }
}

/// Pair (`g2`, `p2`) comes before (`g`, `p`) in group-major order.
pub open spec fn spec_before_pair(g2: int, p2: int, g: int, p: int) -> bool {
    g2 < g || (g2 == g && p2 < p)
}

/// What tokenizing the groups reads is there and can be read: every pass
/// covers the whole frame, the maps cover the frame, the groups are the
/// frame's 32 x 32-block groups, the orders are usable, and no coefficient
/// that a group codes as a token is `i32::MIN`.
pub open spec fn spec_groups_tokenizable(
    pass_ac_x: Seq<Seq<i32>>,
    pass_ac_y: Seq<Seq<i32>>,
    pass_ac_b: Seq<Seq<i32>>,
    map: Seq<u8>,
    quant: Seq<u8>,
    bw: int,
    bh: int,
    groups_x: int,
    num_groups: int,
    orders: Option<Seq<Seq<usize>>>,
) -> bool {
    &&& bw >= 1
    &&& bh >= 1
    &&& bw * bh * 64 <= usize::MAX
    &&& map.len() == bw * bh
    &&& quant.len() == bw * bh
    &&& groups_x == spec_div_ceil(bw, 32)
    &&& num_groups == groups_x * spec_div_ceil(bh, 32)
    &&& pass_ac_y.len() == pass_ac_x.len()
    &&& pass_ac_b.len() == pass_ac_x.len()
    &&& forall|p: int| 0 <= p < pass_ac_x.len() ==> {
        &&& (#[trigger] pass_ac_x[p]).len() >= bw * bh * 64
        &&& pass_ac_y[p].len() >= bw * bh * 64
        &&& pass_ac_b[p].len() >= bw * bh * 64
    }
    &&& orders matches Some(o) ==> o.len() == 3 && forall|c: int, k: int|
        0 <= c < 3 && 0 <= k < 64 ==> #[trigger] o[c][k] < 64
    &&& forall|p: int, g: int|
        0 <= p < pass_ac_x.len() && 0 <= g < num_groups ==> spec_region_no_min(
            #[trigger] spec_group_region(pass_ac_x, pass_ac_y, pass_ac_b, map, quant, bw, bh, groups_x, p, g, orders),
        )
}

proof fn lemma_group_rect_facts(bw: int, bh: int, groups_x: int, num_groups: int, g: int)
    requires
        bw >= 1,
        bh >= 1,
        groups_x == spec_div_ceil(bw, 32),
        num_groups == groups_x * spec_div_ceil(bh, 32),
        0 <= g < num_groups,
    ensures
        groups_x >= 1,
        (g % groups_x) * 32 < bw,
        (g / groups_x) * 32 < bh,
        ({
            let (x0, y0, w, h) = spec_group_rect(g, groups_x, 32, bw, bh);
            &&& x0 == (g % groups_x) * 32
            &&& y0 == (g / groups_x) * 32
            &&& 1 <= w <= 32
            &&& 1 <= h <= 32
            &&& x0 + w <= bw
            &&& y0 + h <= bh
        }),
{
    let ny = spec_div_ceil(bh, 32);
    vstd::arithmetic::div_mod::lemma_fundamental_div_mod(bw + 31, 32);
    vstd::arithmetic::div_mod::lemma_fundamental_div_mod(bh + 31, 32);
    assert(groups_x >= 1 && ny >= 1);
    vstd::arithmetic::div_mod::lemma_fundamental_div_mod(g, groups_x);
    let gx = g % groups_x;
    let gy = g / groups_x;
    assert(0 <= gy < ny) by (nonlinear_arith)
        requires
            g == groups_x * gy + gx,
            0 <= gx < groups_x,
            0 <= g < groups_x * ny,
            groups_x >= 1,
    ;
    assert((gx) * 32 < bw && gy * 32 < bh) by (nonlinear_arith)
        requires
            0 <= gx < groups_x,
            0 <= gy < ny,
            bw + 31 == 32 * groups_x + (bw + 31) % 32,
            bh + 31 == 32 * ny + (bh + 31) % 32,
            0 <= (bw + 31) % 32 < 32,
            0 <= (bh + 31) % 32 < 32,
    ;
}

/// Appends `t` to row `p` of `rows`.
fn push_to_row(rows: &mut Vec<Vec<Vec<AcToken>>>, p: usize, t: Vec<AcToken>)
    requires
        p < old(rows)@.len(),
    ensures
        final(rows)@.len() == old(rows)@.len(),
        final(rows)@[p as int]@ == old(rows)@[p as int]@.push(t),
        forall|q: int| 0 <= q < old(rows)@.len() && q != p ==> final(rows)@[q] == old(rows)@[q],
{
    let mut row = rows.remove(p);
    row.push(t);
    rows.insert(p, row);
}

/// Tokenizes one (pass, group) region, with the tokenizer's result.
fn tokenize_pass_group(
    pass_ac_x: &[Vec<i32>],
    pass_ac_y: &[Vec<i32>],
    pass_ac_b: &[Vec<i32>],
    transform_map: &[u8],
    raw_quant_map: &[u8],
    bw: usize,
    bh: usize,
    groups_x: usize,
    num_groups: usize,
    custom_orders: Option<&[[usize; 64]; 3]>,
    p: usize,
    g: usize,
) -> (r: Result<Vec<AcToken>, Error>)
    requires
        spec_groups_tokenizable(
            spec_plane_views(pass_ac_x@),
            spec_plane_views(pass_ac_y@),
            spec_plane_views(pass_ac_b@),
            transform_map@,
            raw_quant_map@,
            bw as int,
            bh as int,
            groups_x as int,
            num_groups as int,
            spec_orders_view(custom_orders),
        ),
        p < pass_ac_x@.len(),
        g < num_groups,
    ensures
        ({
            let reg = spec_frame_region(
                pass_ac_x@,
                pass_ac_y@,
                pass_ac_b@,
                transform_map@,
                raw_quant_map@,
                bw as int,
                bh as int,
                groups_x as int,
                spec_orders_view(custom_orders),
                p as int,
                g as int,
            );
            match r {
                Ok(t) => spec_tokenize_region(reg) == Ok::<Seq<AcToken>, Error>(t@),
                Err(e) => spec_tokenize_region(reg) == Err::<Seq<AcToken>, Error>(e),
            }
        }),
{
    let ghost xs = spec_plane_views(pass_ac_x@);
    let ghost ys = spec_plane_views(pass_ac_y@);
    let ghost bs = spec_plane_views(pass_ac_b@);
    proof {
        lemma_group_rect_facts(bw as int, bh as int, groups_x as int, num_groups as int, g as int);
        assert(xs[p as int] == pass_ac_x@[p as int]@);
        assert(ys[p as int] == pass_ac_y@[p as int]@);
        assert(bs[p as int] == pass_ac_b@[p as int]@);
        assert(xs[p as int].len() >= bw * bh * 64);
        assert(bw * 64 <= bw * bh * 64) by (nonlinear_arith)
            requires
                bh >= 1,
                bw >= 1,
        ;
        assert(bh * 64 <= bw * bh * 64) by (nonlinear_arith)
            requires
                bh >= 1,
                bw >= 1,
        ;
    }
    let (x0, y0, gw, gh) = group_rect(g, groups_x, 32, bw, bh);
    proof {
        lemma_rect_in_map(bw as int, bh as int, x0 as int, y0 as int, gw as int, gh as int);
        assert(gw * gh <= 1024) by (nonlinear_arith)
            requires
                1 <= gw <= 32,
                1 <= gh <= 32,
        ;
        let lim = ((y0 + gh - 1) * bw + x0 + gw) as int;
        assert(lim * 64 <= bw * bh * 64) by (nonlinear_arith)
            requires
                lim <= bw * bh,
        ;
    }
    let ax = pass_ac_x[p].as_slice();
    let ay = pass_ac_y[p].as_slice();
    let ab = pass_ac_b[p].as_slice();
    proof {
        let reg = spec_group_region(
            xs,
            ys,
            bs,
            transform_map@,
            raw_quant_map@,
            bw as int,
            bh as int,
            groups_x as int,
            p as int,
            g as int,
            spec_orders_view(custom_orders),
        );
        let hreg = spec_hf_region(
            ax,
            ay,
            ab,
            transform_map,
            bw,
            x0,
            y0,
            gw,
            gh,
            15,
            0,
            custom_orders,
            Some(raw_quant_map),
            None,
        );
        assert(hreg.ac =~= reg.ac);
        assert(hreg == reg);
    }
    let r = tokenize_hf_region(
        ax,
        ay,
        ab,
        transform_map,
        bw,
        x0,
        y0,
        gw,
        gh,
        15,
        0,
        custom_orders,
        Some(raw_quant_map),
        None,
    );
    r
}

/// The three orders of `o`, as sequences.
pub open spec fn spec_orders_view(o: Option<&[[usize; 64]; 3]>) -> Option<Seq<Seq<usize>>> {
    match o {
        Some(o) => Some(seq![o[0]@, o[1]@, o[2]@]),
        None => None,
    }
}

/// The region of group `g` in pass `p`, over the passes as vectors.
pub open spec fn spec_frame_region(
    pass_ac_x: Seq<Vec<i32>>,
    pass_ac_y: Seq<Vec<i32>>,
    pass_ac_b: Seq<Vec<i32>>,
    map: Seq<u8>,
    quant: Seq<u8>,
    bw: int,
    bh: int,
    groups_x: int,
    orders: Option<Seq<Seq<usize>>>,
    p: int,
    g: int,
) -> HfRegion {
    spec_group_region(
        spec_plane_views(pass_ac_x),
        spec_plane_views(pass_ac_y),
        spec_plane_views(pass_ac_b),
        map,
        quant,
        bw,
        bh,
        groups_x,
        p,
        g,
        orders,
    )
}

/// Tokenizes the AC coefficients of every HF group in every pass, groups in
/// raster order and passes in turn within a group; the tokens are indexed
/// by pass, then group. Fails with the tokenizer's first error in that order.
pub fn tokenize_frame_groups(
    pass_ac_x: &[Vec<i32>],
    pass_ac_y: &[Vec<i32>],
    pass_ac_b: &[Vec<i32>],
    transform_map: &[u8],
    raw_quant_map: &[u8],
    bw: usize,
    bh: usize,
    groups_x: usize,
    num_groups: usize,
    custom_orders: Option<&[[usize; 64]; 3]>,
) -> (r: Result<Vec<Vec<Vec<AcToken>>>, Error>)
    requires
        spec_groups_tokenizable(
            spec_plane_views(pass_ac_x@),
            spec_plane_views(pass_ac_y@),
            spec_plane_views(pass_ac_b@),
            transform_map@,
            raw_quant_map@,
            bw as int,
            bh as int,
            groups_x as int,
            num_groups as int,
            spec_orders_view(custom_orders),
        ),
    ensures
        ({
            let np = pass_ac_x@.len() as int;
            match r {
                Ok(t) => {
                    &&& t@.len() == np
                    &&& forall|p: int| 0 <= p < np ==> (#[trigger] t@[p])@.len() == num_groups
                    &&& forall|p: int, g: int|
                        0 <= p < np && 0 <= g < num_groups ==> spec_tokenize_region(spec_frame_region(
                                pass_ac_x@,
                                pass_ac_y@,
                                pass_ac_b@,
                                transform_map@,
                                raw_quant_map@,
                                bw as int,
                                bh as int,
                                groups_x as int,
                                spec_orders_view(custom_orders),
                                p,
                                g,
                            )) == Ok::<
                            Seq<AcToken>,
                            Error,
                        >((#[trigger] t@[p]@[g])@)
                },
                Err(e) => exists|g: int, p: int|
                    0 <= g < num_groups && 0 <= p < np && spec_tokenize_region(#[trigger] spec_frame_region(
                            pass_ac_x@,
                            pass_ac_y@,
                            pass_ac_b@,
                            transform_map@,
                            raw_quant_map@,
                            bw as int,
                            bh as int,
                            groups_x as int,
                            spec_orders_view(custom_orders),
                            p,
                            g,
                        )) == Err::<
                        Seq<AcToken>,
                        Error,
                    >(e) && forall|g2: int, p2: int|
                        0 <= g2 < num_groups && 0 <= p2 < np && spec_before_pair(g2, p2, g, p) ==> (
                        #[trigger] spec_tokenize_region(spec_frame_region(
                                pass_ac_x@,
                                pass_ac_y@,
                                pass_ac_b@,
                                transform_map@,
                                raw_quant_map@,
                                bw as int,
                                bh as int,
                                groups_x as int,
                                spec_orders_view(custom_orders),
                                p2,
                                g2,
                            ))) is Ok,
            }
        }),
{
    let np = pass_ac_x.len();
    let mut out: Vec<Vec<Vec<AcToken>>> = Vec::new();
    let mut q: usize = 0;
    while q < np
        invariant
            q <= np,
            np == pass_ac_x@.len(),
            out@.len() == q,
            forall|k: int| 0 <= k < q ==> (#[trigger] out@[k])@.len() == 0,
        decreases np - q,
    {
        out.push(Vec::new());
        q = q + 1;
    }
    let mut g: usize = 0;
    while g < num_groups
        invariant
            g <= num_groups,
            np == pass_ac_x@.len(),
            spec_groups_tokenizable(
                spec_plane_views(pass_ac_x@),
                spec_plane_views(pass_ac_y@),
                spec_plane_views(pass_ac_b@),
                transform_map@,
                raw_quant_map@,
                bw as int,
                bh as int,
                groups_x as int,
                num_groups as int,
                spec_orders_view(custom_orders),
            ),
            out@.len() == np,
            forall|k: int| 0 <= k < np ==> (#[trigger] out@[k])@.len() == g,
            forall|k: int, g2: int|
                0 <= k < np && 0 <= g2 < g ==> spec_tokenize_region(spec_frame_region(
                        pass_ac_x@,
                        pass_ac_y@,
                        pass_ac_b@,
                        transform_map@,
                        raw_quant_map@,
                        bw as int,
                        bh as int,
                        groups_x as int,
                        spec_orders_view(custom_orders),
                        k,
                        g2,
                    )) == Ok::<
                    Seq<AcToken>,
                    Error,
                >((#[trigger] out@[k]@[g2])@),
        decreases num_groups - g,
    {
        let mut p: usize = 0;
        while p < np
            invariant
                g < num_groups,
                p <= np,
                np == pass_ac_x@.len(),
                spec_groups_tokenizable(
                    spec_plane_views(pass_ac_x@),
                    spec_plane_views(pass_ac_y@),
                    spec_plane_views(pass_ac_b@),
                    transform_map@,
                    raw_quant_map@,
                    bw as int,
                    bh as int,
                    groups_x as int,
                    num_groups as int,
                    spec_orders_view(custom_orders),
                ),
                out@.len() == np,
                forall|k: int| 0 <= k < np ==> (#[trigger] out@[k])@.len() == if k < p {
                    g + 1
                } else {
                    g as int
                },
                forall|k: int, g2: int|
                    0 <= k < np && 0 <= g2 < out@[k]@.len() ==> spec_tokenize_region(spec_frame_region(
                            pass_ac_x@,
                            pass_ac_y@,
                            pass_ac_b@,
                            transform_map@,
                            raw_quant_map@,
                            bw as int,
                            bh as int,
                            groups_x as int,
                            spec_orders_view(custom_orders),
                            k,
                            g2,
                        )) == Ok::<
                        Seq<AcToken>,
                        Error,
                    >((#[trigger] out@[k]@[g2])@),
            decreases np - p,
        {
            match tokenize_pass_group(
                pass_ac_x,
                pass_ac_y,
                pass_ac_b,
                transform_map,
                raw_quant_map,
                bw,
                bh,
                groups_x,
                num_groups,
                custom_orders,
                p,
                g,
            ) {
                Ok(t) => {
                    let ghost before = out@;
                    push_to_row(&mut out, p, t);
                    proof {
                        assert forall|k: int, g2: int|
                            0 <= k < np && 0 <= g2 < out@[k]@.len() implies spec_tokenize_region(
                            spec_frame_region(
                                    pass_ac_x@,
                                    pass_ac_y@,
                                    pass_ac_b@,
                                    transform_map@,
                                    raw_quant_map@,
                                    bw as int,
                                    bh as int,
                                    groups_x as int,
                                    spec_orders_view(custom_orders),
                                    k,
                                    g2,
                                ),
                        ) == Ok::<Seq<AcToken>, Error>((#[trigger] out@[k]@[g2])@) by {
                            if k == p {
                                if g2 < before[k]@.len() {
                                    assert(out@[k]@[g2] == before[k]@[g2]);
                                } else {
                                    assert(out@[k]@[g2] == t);
                                }
                            } else {
                                assert(out@[k] == before[k]);
                            }
                        }
                    }
                },
                Err(e) => {
                    proof {
                        assert(spec_tokenize_region(spec_frame_region(
                                pass_ac_x@,
                                pass_ac_y@,
                                pass_ac_b@,
                                transform_map@,
                                raw_quant_map@,
                                bw as int,
                                bh as int,
                                groups_x as int,
                                spec_orders_view(custom_orders),
                                p as int,
                                g as int,
                            )) == Err::<Seq<AcToken>, Error>(e));
                        assert forall|g2: int, p2: int|
                            0 <= g2 < num_groups && 0 <= p2 < np && spec_before_pair(
                                g2,
                                p2,
                                g as int,
                                p as int,
                            ) implies (#[trigger] spec_tokenize_region(spec_frame_region(
                                    pass_ac_x@,
                                    pass_ac_y@,
                                    pass_ac_b@,
                                    transform_map@,
                                    raw_quant_map@,
                                    bw as int,
                                    bh as int,
                                    groups_x as int,
                                    spec_orders_view(custom_orders),
                                    p2,
                                    g2,
                                ))) is Ok by {
                            assert(g2 < out@[p2]@.len());
                            assert(spec_tokenize_region(spec_frame_region(
                                    pass_ac_x@,
                                    pass_ac_y@,
                                    pass_ac_b@,
                                    transform_map@,
                                    raw_quant_map@,
                                    bw as int,
                                    bh as int,
                                    groups_x as int,
                                    spec_orders_view(custom_orders),
                                    p2,
                                    g2,
                                )) == Ok::<Seq<AcToken>, Error>(
                                out@[p2]@[g2]@,
                            ));
                        }
                    }
                    return Err(e);
                },
            }
            p = p + 1;
        }
        g = g + 1;
    }
    Ok(out)
}



/// The tokens of group `g` over the first `n` passes, pass after pass.
pub open spec fn spec_merged_group_tokens(t: Seq<Vec<Vec<AcToken>>>, g: int, n: int) -> Seq<AcToken>
    decreases n,
{
    if n <= 0 {
        Seq::empty()
    } else {
        spec_merged_group_tokens(t, g, n - 1) + t[n - 1]@[g]@
    }
}

/// Joins the token lists of each group over all passes (indexed by pass,
/// then group) into one list per group, pass after pass.
pub fn merge_pass_tokens(group_tokens_passes: &[Vec<Vec<AcToken>>], num_groups: usize) -> (r: Vec<
    Vec<AcToken>,
>)
    requires
        forall|p: int|
            0 <= p < group_tokens_passes@.len() ==> (#[trigger] group_tokens_passes@[p])@.len()
                >= num_groups,
    ensures
        r@.len() == num_groups,
        forall|g: int|
            0 <= g < num_groups ==> (#[trigger] r@[g])@ == spec_merged_group_tokens(
                group_tokens_passes@,
                g,
                group_tokens_passes@.len() as int,
            ),
{
    let np = group_tokens_passes.len();
    let mut out: Vec<Vec<AcToken>> = Vec::new();
    let mut g: usize = 0;
    while g < num_groups
        invariant
            g <= num_groups,
            np == group_tokens_passes@.len(),
            forall|p: int|
                0 <= p < group_tokens_passes@.len() ==> (#[trigger] group_tokens_passes@[p])@.len()
                    >= num_groups,
            out@.len() == g,
            forall|h: int|
                0 <= h < g ==> (#[trigger] out@[h])@ == spec_merged_group_tokens(
                    group_tokens_passes@,
                    h,
                    np as int,
                ),
        decreases num_groups - g,
    {
        let mut row: Vec<AcToken> = Vec::new();
        let mut p: usize = 0;
        while p < np
            invariant
                g < num_groups,
                p <= np,
                np == group_tokens_passes@.len(),
                forall|q: int|
                    0 <= q < group_tokens_passes@.len() ==> (#[trigger] group_tokens_passes@[q])@.len()
                        >= num_groups,
                row@ == spec_merged_group_tokens(group_tokens_passes@, g as int, p as int),
            decreases np - p,
        {
            let src = &group_tokens_passes[p][g];
            let ghost before = row@;
            let mut i: usize = 0;
            while i < src.len()
                invariant
                    i <= src@.len(),
                    row@ == before + src@.subrange(0, i as int),
                decreases src@.len() - i,
            {
                row.push(src[i]);
                i = i + 1;
                assert(row@ =~= before + src@.subrange(0, i as int));
            }
            assert(src@.subrange(0, src@.len() as int) =~= src@);
            p = p + 1;
        }
        out.push(row);
        g = g + 1;
    }
    out
}


/// The planes of coefficients `ac` split into `num_passes` passes.
pub open spec fn spec_split_planes(ac: Seq<i32>, num_passes: int, shifts: Seq<u32>, effort: u8) -> Seq<
    Seq<i32>,
> {
    Seq::new(
        num_passes as nat,
        |p: int| Seq::new(ac.len(), |i: int| spec_pass_value(ac[i], p, i % 64, num_passes, shifts, effort)),
    )
}

/// The HF-group tokens of a multi-group frame: the custom DCT8 orders it
/// uses, the tokens of every group in every pass (indexed by pass, then
/// group), and each group's tokens over all passes.
pub struct FramePassTokens {
    pub custom_orders: Option<[[usize; 64]; 3]>,
    pub group_tokens_passes: Vec<Vec<Vec<AcToken>>>,
    pub merged_group_tokens: Vec<Vec<AcToken>>,
}

/// What tokenizing the passes of a multi-group frame reads is there: a
/// frame of at least one block whose coefficients and maps cover it, none of
/// the coefficients it codes as tokens being `i32::MIN`, and at least one
/// pass.
pub open spec fn spec_frame_passes_ok(
    ac_x: Seq<i32>,
    ac_y: Seq<i32>,
    ac_b: Seq<i32>,
    map: Seq<u8>,
    quant: Seq<u8>,
    bw: int,
    bh: int,
    num_passes: int,
) -> bool {
    &&& bw >= 1
    &&& bh >= 1
    &&& bw * bh * 64 <= usize::MAX
    &&& map.len() == bw * bh
    &&& quant.len() == bw * bh
    &&& ac_x.len() >= bw * bh * 64
    &&& ac_y.len() >= bw * bh * 64
    &&& ac_b.len() >= bw * bh * 64
    &&& spec_frame_no_min(ac_x, ac_y, ac_b, map, bw, bh)
    &&& num_passes >= 1
}

proof fn lemma_split_views(v: Seq<Vec<i32>>, ac: Seq<i32>, num_passes: int, shifts: Seq<u32>, effort: u8)
    requires
        v.len() == num_passes,
        forall|p: int| 0 <= p < num_passes ==> #[trigger] v[p]@.len() == ac.len(),
        forall|p: int, i: int|
            0 <= p < num_passes && 0 <= i < ac.len() ==> #[trigger] v[p]@[i] == spec_pass_value(
                ac[i],
                p,
                i % 64,
                num_passes,
                shifts,
                effort,
            ),
    ensures
        spec_plane_views(v) == spec_split_planes(ac, num_passes, shifts, effort),
{
    let w = spec_split_planes(ac, num_passes, shifts, effort);
    assert forall|p: int| 0 <= p < num_passes implies spec_plane_views(v)[p] == w[p] by {
        assert(spec_plane_views(v)[p] =~= w[p]);
    }
    assert(spec_plane_views(v) =~= w);
}

/// The coefficients a group codes as tokens in a pass are the pass's share
/// of coefficients the whole frame codes as tokens (with the same orders):
/// so if none of the frame's is `i32::MIN`, none of the group's is.
proof fn lemma_group_region_no_min(
    ac_x: Seq<i32>,
    ac_y: Seq<i32>,
    ac_b: Seq<i32>,
    map: Seq<u8>,
    quant: Seq<u8>,
    bw: int,
    bh: int,
    num_passes: int,
    shifts: Seq<u32>,
    effort: u8,
    orders: Option<Seq<Seq<usize>>>,
    p: int,
    g: int,
)
    requires
        bw >= 1,
        bh >= 1,
        map.len() == bw * bh,
        ac_x.len() >= bw * bh * 64,
        ac_y.len() >= bw * bh * 64,
        ac_b.len() >= bw * bh * 64,
        spec_orders_bounded(orders),
        0 <= p < num_passes,
        0 <= g < spec_div_ceil(bw, 32) * spec_div_ceil(bh, 32),
        spec_region_no_min(spec_single_group_region(ac_x, ac_y, ac_b, map, bw, bh, orders)),
    ensures
        spec_region_no_min(
            spec_group_region(
                spec_split_planes(ac_x, num_passes, shifts, effort),
                spec_split_planes(ac_y, num_passes, shifts, effort),
                spec_split_planes(ac_b, num_passes, shifts, effort),
                map,
                quant,
                bw,
                bh,
                spec_div_ceil(bw, 32),
                p,
                g,
                orders,
            ),
        ),
{
    let gx = spec_div_ceil(bw, 32);
    let xs = spec_split_planes(ac_x, num_passes, shifts, effort);
    let ys = spec_split_planes(ac_y, num_passes, shifts, effort);
    let bs = spec_split_planes(ac_b, num_passes, shifts, effort);
    let gr = spec_group_region(xs, ys, bs, map, quant, bw, bh, gx, p, g, orders);
    let fr = spec_single_group_region(ac_x, ac_y, ac_b, map, bw, bh, orders);
    lemma_group_rect_facts(bw, bh, gx, gx * spec_div_ceil(bh, 32), g);
    assert((bh - 1) * bw + bw == bw * bh) by (nonlinear_arith);
    assert forall|bx: int, by: int|
        0 <= bx < gr.rw && 0 <= by < gr.rh && spec_cell_tokenized(gr, bx, by) implies #[trigger] spec_cell_no_min(
        gr,
        bx,
        by,
    ) by {
        let fx = gr.x0 + bx;
        let fy = gr.y0 + by;
        assert(crate::transform_map::spec_region_block(bw, gr.x0, gr.y0, bx, by)
            == crate::transform_map::spec_region_block(bw, 0, 0, fx, fy));
        let t = spec_cell_transform(gr, bx, by);
        assert(t == spec_cell_transform(fr, fx, fy));
        assert(spec_cell_tokenized(fr, fx, fy));
        assert(spec_cell_no_min(fr, fx, fy));
        let cx = crate::transform::spec_covered_x(t);
        let cy = crate::transform::spec_covered_y(t);
        let nb = cx * cy;
        assert forall|ci: int, k: int| 0 <= ci < 3 && nb <= k < nb * 64 implies #[trigger] spec_cell_vals(
            gr,
            ci,
            bx,
            by,
        )[k] != i32::MIN by {
            lemma_cell_order_in_transform(gr, ci, bx, by);
            let order = spec_cell_order(gr, ci, bx, by);
            assert(order == spec_cell_order(fr, ci, fx, fy));
            let idx = crate::transform_map::spec_storage_index(bw, fx, fy, cx as int, order[k] as int);
            lemma_storage_in_region(bw, 0, 0, bw, bh, fx, fy, cx as int, cy as int, order[k] as int);
            assert(0 <= idx < bw * bh * 64);
            assert(spec_cell_vals(fr, ci, fx, fy)[k] == fr.ac[ci][idx]);
            assert(spec_cell_vals(gr, ci, bx, by)[k] == gr.ac[ci][idx]);
            assert(fr.ac[ci][idx] != i32::MIN);
            if ci == 0 {
                lemma_pass_value_not_min(ac_y[idx], p, idx % 64, num_passes, shifts, effort);
            } else if ci == 1 {
                lemma_pass_value_not_min(ac_x[idx], p, idx % 64, num_passes, shifts, effort);
            } else {
                lemma_pass_value_not_min(ac_b[idx], p, idx % 64, num_passes, shifts, effort);
            }
        }
    }
}

proof fn lemma_frame_groups_fit(bw: int, bh: int)
    requires
        bw >= 1,
        bh >= 1,
        bw * bh * 64 <= usize::MAX,
    ensures
        spec_div_ceil(bw, 32) * spec_div_ceil(bh, 32) <= bw * bh,
        spec_div_ceil(bw, 32) >= 1,
        bw * bh <= bw * bh * 64,
{
    lemma_div_ceil(bw, 32);
    lemma_div_ceil(bh, 32);
    lemma_ceil_le(bw, 32);
    lemma_ceil_le(bh, 32);
    let gx = spec_div_ceil(bw, 32);
    let gy = spec_div_ceil(bh, 32);
    assert(gx * gy <= bw * bh) by (nonlinear_arith)
        requires
            gx <= bw,
            gy <= bh,
            gx >= 0,
            gy >= 0,
    ;
    assert(bw * bh <= bw * bh * 64) by (nonlinear_arith)
        requires
            bw >= 1,
            bh >= 1,
    ;
}

proof fn lemma_split_planes_tokenizable(
    xs: Seq<Seq<i32>>,
    ys: Seq<Seq<i32>>,
    bs: Seq<Seq<i32>>,
    len_x: int,
    len_y: int,
    len_b: int,
    map: Seq<u8>,
    quant: Seq<u8>,
    bw: int,
    bh: int,
    num_passes: int,
    orders: Option<Seq<Seq<usize>>>,
)
    requires
        bw >= 1,
        bh >= 1,
        bw * bh * 64 <= usize::MAX,
        map.len() == bw * bh,
        quant.len() == bw * bh,
        len_x >= bw * bh * 64,
        len_y >= bw * bh * 64,
        len_b >= bw * bh * 64,
        xs.len() == num_passes,
        ys.len() == num_passes,
        bs.len() == num_passes,
        forall|p: int| 0 <= p < num_passes ==> (#[trigger] xs[p]).len() == len_x,
        forall|p: int| 0 <= p < num_passes ==> (#[trigger] ys[p]).len() == len_y,
        forall|p: int| 0 <= p < num_passes ==> (#[trigger] bs[p]).len() == len_b,
        orders matches Some(o) ==> o.len() == 3 && forall|c: int, k: int|
            0 <= c < 3 && 0 <= k < 64 ==> #[trigger] o[c][k] < 64,
        forall|p: int, g: int|
            0 <= p < num_passes && 0 <= g < spec_div_ceil(bw, 32) * spec_div_ceil(bh, 32) ==> spec_region_no_min(
                #[trigger] spec_group_region(xs, ys, bs, map, quant, bw, bh, spec_div_ceil(bw, 32), p, g, orders),
            ),
    ensures
        spec_groups_tokenizable(
            xs,
            ys,
            bs,
            map,
            quant,
            bw,
            bh,
            spec_div_ceil(bw, 32),
            spec_div_ceil(bw, 32) * spec_div_ceil(bh, 32),
            orders,
        ),
{
}

/// What phase one of a multi-group frame gives (see
/// `tokenize_frame_passes`) for the coefficients, maps and pass plan.
pub open spec fn spec_frame_pass_tokens(
    r: Result<FramePassTokens, Error>,
    ac_x: Seq<i32>,
    ac_y: Seq<i32>,
    ac_b: Seq<i32>,
    map: Seq<u8>,
    quant: Seq<u8>,
    bw: int,
    bh: int,
    num_passes: usize,
    pass_shifts: Seq<u32>,
    effort: u8,
) -> bool {
    let np = num_passes as int;
    let xs = spec_split_planes(ac_x, np, pass_shifts, effort);
    let ys = spec_split_planes(ac_y, np, pass_shifts, effort);
    let bs = spec_split_planes(ac_b, np, pass_shifts, effort);
    let gx = spec_div_ceil(bw, 32);
    let ng = gx * spec_div_ceil(bh, 32);
    let orders = spec_frame_custom_orders(
        ac_x,
        ac_y,
        ac_b,
        map,
        bw,
        bh,
        spec_effort_params(effort).enable_custom_coeff_orders,
        num_passes,
    );
    match r {
        Ok(t) => {
            &&& spec_orders_view(
                match t.custom_orders {
                    Some(o) => Some(&o),
                    None => None,
                },
            ) == orders
            &&& t.group_tokens_passes@.len() == np
            &&& forall|p: int| 0 <= p < np ==> (#[trigger] t.group_tokens_passes@[p])@.len() == ng
            &&& forall|p: int, g: int|
                0 <= p < np && 0 <= g < ng ==> spec_tokenize_region(
                    spec_group_region(
                        xs,
                        ys,
                        bs,
                        map,
                        quant,
                        bw,
                        bh,
                        gx,
                        p,
                        g,
                        orders,
                    ),
                ) == Ok::<Seq<AcToken>, Error>((#[trigger] t.group_tokens_passes@[p]@[g])@)
            &&& t.merged_group_tokens@.len() == ng
            &&& forall|g: int|
                0 <= g < ng ==> (#[trigger] t.merged_group_tokens@[g])@
                    == spec_merged_group_tokens(t.group_tokens_passes@, g, np)
        },
        Err(e) => exists|g: int, p: int|
            0 <= g < ng && 0 <= p < np && spec_tokenize_region(
                #[trigger] spec_group_region(
                    xs,
                    ys,
                    bs,
                    map,
                    quant,
                    bw,
                    bh,
                    gx,
                    p,
                    g,
                    orders,
                ),
            ) == Err::<Seq<AcToken>, Error>(e) && forall|g2: int, p2: int|
                0 <= g2 < ng && 0 <= p2 < np && spec_before_pair(g2, p2, g, p) ==> (
                #[trigger] spec_tokenize_region(
                    spec_group_region(
                        xs,
                        ys,
                        bs,
                        map,
                        quant,
                        bw,
                        bh,
                        gx,
                        p2,
                        g2,
                        orders,
                    ),
                )) is Ok,
    }
    }

proof fn lemma_frame_pass_tokens_ok(
    res: FramePassTokens,
    pv_x: Seq<Vec<i32>>,
    pv_y: Seq<Vec<i32>>,
    pv_b: Seq<Vec<i32>>,
    ac_x: Seq<i32>,
    ac_y: Seq<i32>,
    ac_b: Seq<i32>,
    map: Seq<u8>,
    quant: Seq<u8>,
    bw: int,
    bh: int,
    num_passes: usize,
    shifts: Seq<u32>,
    effort: u8,
)
    requires
        spec_plane_views(pv_x) == spec_split_planes(ac_x, num_passes as int, shifts, effort),
        spec_plane_views(pv_y) == spec_split_planes(ac_y, num_passes as int, shifts, effort),
        spec_plane_views(pv_b) == spec_split_planes(ac_b, num_passes as int, shifts, effort),
        pv_x.len() == num_passes,
        ({
            let orders = spec_frame_custom_orders(
                ac_x,
                ac_y,
                ac_b,
                map,
                bw,
                bh,
                spec_effort_params(effort).enable_custom_coeff_orders,
                num_passes,
            );
            let gx = spec_div_ceil(bw, 32);
            let ng = gx * spec_div_ceil(bh, 32);
            let t = res.group_tokens_passes;
            &&& spec_orders_view(
                match res.custom_orders {
                    Some(o) => Some(&o),
                    None => None,
                },
            ) == orders
            &&& t@.len() == num_passes
            &&& forall|p: int| 0 <= p < num_passes ==> (#[trigger] t@[p])@.len() == ng
            &&& forall|p: int, g: int|
                0 <= p < num_passes && 0 <= g < ng ==> spec_tokenize_region(
                    spec_frame_region(pv_x, pv_y, pv_b, map, quant, bw, bh, gx, orders, p, g),
                ) == Ok::<Seq<AcToken>, Error>((#[trigger] t@[p]@[g])@)
            &&& res.merged_group_tokens@.len() == ng
            &&& forall|g: int|
                0 <= g < ng ==> (#[trigger] res.merged_group_tokens@[g])@ == spec_merged_group_tokens(
                    t@,
                    g,
                    num_passes as int,
                )
        }),
    ensures
        spec_frame_pass_tokens(Ok(res), ac_x, ac_y, ac_b, map, quant, bw, bh, num_passes, shifts, effort),
{
}

proof fn lemma_frame_pass_tokens_err(
    e: Error,
    pv_x: Seq<Vec<i32>>,
    pv_y: Seq<Vec<i32>>,
    pv_b: Seq<Vec<i32>>,
    ac_x: Seq<i32>,
    ac_y: Seq<i32>,
    ac_b: Seq<i32>,
    map: Seq<u8>,
    quant: Seq<u8>,
    bw: int,
    bh: int,
    num_passes: usize,
    shifts: Seq<u32>,
    effort: u8,
    orders: Option<Seq<Seq<usize>>>,
)
    requires
        spec_plane_views(pv_x) == spec_split_planes(ac_x, num_passes as int, shifts, effort),
        spec_plane_views(pv_y) == spec_split_planes(ac_y, num_passes as int, shifts, effort),
        spec_plane_views(pv_b) == spec_split_planes(ac_b, num_passes as int, shifts, effort),
        pv_x.len() == num_passes,
        orders == spec_frame_custom_orders(
            ac_x,
            ac_y,
            ac_b,
            map,
            bw,
            bh,
            spec_effort_params(effort).enable_custom_coeff_orders,
            num_passes,
        ),
        ({
            let gx = spec_div_ceil(bw, 32);
            let ng = gx * spec_div_ceil(bh, 32);
            exists|g: int, p: int|
                0 <= g < ng && 0 <= p < num_passes && spec_tokenize_region(
                    #[trigger] spec_frame_region(pv_x, pv_y, pv_b, map, quant, bw, bh, gx, orders, p, g),
                ) == Err::<Seq<AcToken>, Error>(e) && forall|g2: int, p2: int|
                    0 <= g2 < ng && 0 <= p2 < num_passes && spec_before_pair(g2, p2, g, p) ==> (
                    #[trigger] spec_tokenize_region(
                        spec_frame_region(pv_x, pv_y, pv_b, map, quant, bw, bh, gx, orders, p2, g2),
                    )) is Ok
        }),
    ensures
        spec_frame_pass_tokens(Err(e), ac_x, ac_y, ac_b, map, quant, bw, bh, num_passes, shifts, effort),
{
    let gx = spec_div_ceil(bw, 32);
    let ng = gx * spec_div_ceil(bh, 32);
    let xs = spec_split_planes(ac_x, num_passes as int, shifts, effort);
    let ys = spec_split_planes(ac_y, num_passes as int, shifts, effort);
    let bs = spec_split_planes(ac_b, num_passes as int, shifts, effort);
    let (g, p) = choose|g: int, p: int|
        0 <= g < ng && 0 <= p < num_passes && spec_tokenize_region(
            #[trigger] spec_frame_region(pv_x, pv_y, pv_b, map, quant, bw, bh, gx, orders, p, g),
        ) == Err::<Seq<AcToken>, Error>(e) && forall|g2: int, p2: int|
            0 <= g2 < ng && 0 <= p2 < num_passes && spec_before_pair(g2, p2, g, p) ==> (
            #[trigger] spec_tokenize_region(
                spec_frame_region(pv_x, pv_y, pv_b, map, quant, bw, bh, gx, orders, p2, g2),
            )) is Ok;
    assert(spec_frame_region(pv_x, pv_y, pv_b, map, quant, bw, bh, gx, orders, p, g) == spec_group_region(
        xs,
        ys,
        bs,
        map,
        quant,
        bw,
        bh,
        gx,
        p,
        g,
        orders,
    ));
    assert forall|g2: int, p2: int|
        0 <= g2 < ng && 0 <= p2 < num_passes && spec_before_pair(g2, p2, g, p) implies (
        #[trigger] spec_tokenize_region(spec_group_region(xs, ys, bs, map, quant, bw, bh, gx, p2, g2, orders)))
        is Ok by {
        assert(spec_frame_region(pv_x, pv_y, pv_b, map, quant, bw, bh, gx, orders, p2, g2)
            == spec_group_region(xs, ys, bs, map, quant, bw, bh, gx, p2, g2, orders));
    }
}

/// Phase one of a multi-group frame: picks the custom DCT8 orders (from the
/// effort's settings and the number of passes), splits the coefficients
/// into the passes, tokenizes every group of every pass (groups in raster
/// order, passes in turn within a group) and joins each group's tokens over
/// the passes. Fails with the tokenizer's first error in that order.
pub fn tokenize_frame_passes(
    ac_x: &[i32],
    ac_y: &[i32],
    ac_b: &[i32],
    transform_map: &[u8],
    raw_quant_map: &[u8],
    bw: usize,
    bh: usize,
    num_passes: usize,
    pass_shifts: &[u32],
    effort: u8,
) -> (r: Result<FramePassTokens, Error>)
    requires
        spec_frame_passes_ok(
            ac_x@,
            ac_y@,
            ac_b@,
            transform_map@,
            raw_quant_map@,
            bw as int,
            bh as int,
            num_passes as int,
        ),
    ensures
        spec_frame_pass_tokens(
            r,
            ac_x@,
            ac_y@,
            ac_b@,
            transform_map@,
            raw_quant_map@,
            bw as int,
            bh as int,
            num_passes,
            pass_shifts@,
            effort,
        ),
{
    let ghost np = num_passes as int;
    let ghost xs = spec_split_planes(ac_x@, np, pass_shifts@, effort);
    let ghost ys = spec_split_planes(ac_y@, np, pass_shifts@, effort);
    let ghost bs = spec_split_planes(ac_b@, np, pass_shifts@, effort);
    let groups_x = div_ceil(bw, 32);
    let groups_y = div_ceil(bh, 32);
    proof {
        lemma_frame_groups_fit(bw as int, bh as int);
        lemma_whole_frame_readable(ac_x@.len() as int, transform_map@, bw as int, bh as int);
        lemma_whole_frame_readable(ac_y@.len() as int, transform_map@, bw as int, bh as int);
        lemma_whole_frame_readable(ac_b@.len() as int, transform_map@, bw as int, bh as int);
    }
    let num_groups = groups_x * groups_y;
    let cfg = effort_params(effort);
    let custom_orders = choose_frame_custom_orders(
        ac_x,
        ac_y,
        ac_b,
        transform_map,
        bw,
        bh,
        cfg.enable_custom_coeff_orders,
        num_passes,
    );
    let pass_ac_x = split_ac_into_passes(ac_x, num_passes, pass_shifts, effort);
    let pass_ac_y = split_ac_into_passes(ac_y, num_passes, pass_shifts, effort);
    let pass_ac_b = split_ac_into_passes(ac_b, num_passes, pass_shifts, effort);
    let orders_ref = match &custom_orders {
        Some(o) => Some(o),
        None => None,
    };
    let ghost orders = spec_orders_view(orders_ref);
    proof {
        lemma_split_views(pass_ac_x@, ac_x@, np, pass_shifts@, effort);
        lemma_split_views(pass_ac_y@, ac_y@, np, pass_shifts@, effort);
        lemma_split_views(pass_ac_b@, ac_b@, np, pass_shifts@, effort);
        let base = spec_single_group_region(ac_x@, ac_y@, ac_b@, transform_map@, bw as int, bh as int, None);
        match custom_orders {
            Some(o) => {
                let ov = seq![o[0]@, o[1]@, o[2]@];
                assert forall|c: int| 0 <= c < 3 implies crate::coeff_order::spec_valid_order_8x8(
                    #[trigger] ov[c],
                ) by {
                    assert(ov[c] == o[c]@);
                }
                lemma_region_no_min_any_orders(base, ov);
                assert(spec_single_group_region(ac_x@, ac_y@, ac_b@, transform_map@, bw as int, bh as int, orders)
                    == HfRegion { orders: Some(ov), ..base });
            },
            None => {},
        }
        assert(spec_orders_bounded(orders));
        assert forall|p: int, g: int|
            0 <= p < np && 0 <= g < spec_div_ceil(bw as int, 32) * spec_div_ceil(bh as int, 32) implies spec_region_no_min(
            #[trigger] spec_group_region(
                xs,
                ys,
                bs,
                transform_map@,
                raw_quant_map@,
                bw as int,
                bh as int,
                spec_div_ceil(bw as int, 32),
                p,
                g,
                orders,
            ),
        ) by {
            lemma_group_region_no_min(
                ac_x@,
                ac_y@,
                ac_b@,
                transform_map@,
                raw_quant_map@,
                bw as int,
                bh as int,
                np,
                pass_shifts@,
                effort,
                orders,
                p,
                g,
            );
        }
        lemma_split_planes_tokenizable(
            xs,
            ys,
            bs,
            ac_x@.len() as int,
            ac_y@.len() as int,
            ac_b@.len() as int,
            transform_map@,
            raw_quant_map@,
            bw as int,
            bh as int,
            np,
            orders,
        );
    }
    let tokens = tokenize_frame_groups(
        pass_ac_x.as_slice(),
        pass_ac_y.as_slice(),
        pass_ac_b.as_slice(),
        transform_map,
        raw_quant_map,
        bw,
        bh,
        groups_x,
        num_groups,
        orders_ref,
    );
    match tokens {
        Ok(t) => {
            let merged = merge_pass_tokens(t.as_slice(), num_groups);
            let res = FramePassTokens { custom_orders, group_tokens_passes: t, merged_group_tokens: merged };
            proof {
                lemma_frame_pass_tokens_ok(
                    res,
                    pass_ac_x@,
                    pass_ac_y@,
                    pass_ac_b@,
                    ac_x@,
                    ac_y@,
                    ac_b@,
                    transform_map@,
                    raw_quant_map@,
                    bw as int,
                    bh as int,
                    num_passes,
                    pass_shifts@,
                    effort,
                );
            }
            Ok(res)
        },
        Err(e) => {
            proof {
                lemma_frame_pass_tokens_err(
                    e,
                    pass_ac_x@,
                    pass_ac_y@,
                    pass_ac_b@,
                    ac_x@,
                    ac_y@,
                    ac_b@,
                    transform_map@,
                    raw_quant_map@,
                    bw as int,
                    bh as int,
                    num_passes,
                    pass_shifts@,
                    effort,
                    orders,
                );
            }
            Err(e)
        },
    }
}

/// `base` followed by those maps of `extra` not already present, in order.
pub open spec fn spec_dedup_onto(base: Seq<Seq<u8>>, extra: Seq<Seq<u8>>) -> Seq<Seq<u8>>
    decreases extra.len(),
{
    if extra.len() == 0 {
        base
    } else {
        spec_dedup_step(spec_dedup_onto(base, extra.drop_last()), extra.last())
    }
}

/// The AC context maps a frame tries: with several passes only the map that
/// puts every context in cluster 0; with one pass the candidates built from
/// the context counts followed by the clustered maps not already among them.
/// Of those, the maps usable with the frame's number of groups.
pub open spec fn spec_frame_context_maps(
    num_ac_contexts: nat,
    counts: Seq<u64>,
    num_passes: int,
    clustered: Seq<Seq<u8>>,
    num_groups: int,
) -> Seq<Seq<u8>> {
    let all = if num_passes > 1 {
        seq![Seq::new(num_ac_contexts, |i: int| 0u8)]
    } else {
        spec_dedup_onto(spec_candidates(num_ac_contexts, counts), clustered)
    };
    spec_usable_context_maps(all, num_groups, num_ac_contexts as int)
}

/// Assembles the AC context maps a frame tries (see
/// `spec_frame_context_maps`); `clustered` are the greedily clustered maps of
/// a single-pass frame, in the order they were built.
pub fn frame_context_map_candidates(
    num_ac_contexts: usize,
    context_counts: &[u64],
    num_passes: usize,
    clustered: Vec<Vec<u8>>,
    num_groups: usize,
) -> (r: Vec<Vec<u8>>)
    requires
        num_passes <= 1 ==> spec_num_block_contexts(num_ac_contexts as nat) * spec_num_block_contexts(
            num_ac_contexts as nat,
        ) * 2 <= usize::MAX,
        num_passes <= 1 ==> spec_sum(context_counts@, context_counts@.len() as int) <= u64::MAX,
    ensures
        spec_map_views(r@) == spec_frame_context_maps(
            num_ac_contexts as nat,
            context_counts@,
            num_passes as int,
            spec_map_views(clustered@),
            num_groups as int,
        ),
{
    let mut all: Vec<Vec<u8>>;
    if num_passes > 1 {
        let mut zeros: Vec<u8> = Vec::new();
        let mut j: usize = 0;
        while j < num_ac_contexts
            invariant
                j <= num_ac_contexts,
                zeros@ == Seq::new(j as nat, |t: int| 0u8),
            decreases num_ac_contexts - j,
        {
            zeros.push(0);
            j = j + 1;
            assert(zeros@ =~= Seq::new(j as nat, |t: int| 0u8));
        }
        all = Vec::new();
        all.push(zeros);
        assert(spec_map_views(all@) =~= seq![Seq::new(num_ac_contexts as nat, |t: int| 0u8)]);
    } else {
        all = build_ac_context_map_candidates(num_ac_contexts, context_counts);
        let ghost base = spec_map_views(all@);
        let ghost cv = spec_map_views(clustered@);
        let n = clustered.len();
        let mut k: usize = 0;
        assert(cv.take(0) =~= Seq::<Seq<u8>>::empty());
        while k < n
            invariant
                k <= n,
                n == clustered@.len(),
                cv == spec_map_views(clustered@),
                spec_map_views(all@) == spec_dedup_onto(base, cv.take(k as int)),
            decreases n - k,
        {
            proof {
                assert(cv.take(k + 1).drop_last() =~= cv.take(k as int));
                assert(cv.take(k + 1).last() == clustered@[k as int]@);
            }
            push_unique(&mut all, clustered[k].clone());
            k = k + 1;
        }
        assert(cv.take(n as int) =~= cv);
    }
    usable_context_maps(all, num_groups, num_ac_contexts)
}

/// Group `g` of a grid of `nx` x `ny` groups of `d` x `d` cells over a
/// `w` x `h` plane starts inside the plane.
pub(crate) proof fn lemma_group_cell(g: int, nx: int, ny: int, w: int, h: int, d: int)
    requires
        d >= 1,
        nx == spec_div_ceil(w, d),
        ny == spec_div_ceil(h, d),
        0 <= g < nx * ny,
        w >= 0,
        h >= 0,
    ensures
        nx >= 1,
        0 <= g % nx < nx,
        0 <= g / nx < ny,
        (g % nx) * d < w,
        (g / nx) * d < h,
{
    lemma_div_ceil(w, d);
    lemma_div_ceil(h, d);
    vstd::arithmetic::div_mod::lemma_fundamental_div_mod(w + d - 1, d);
    vstd::arithmetic::div_mod::lemma_fundamental_div_mod(h + d - 1, d);
    assert(nx >= 1) by (nonlinear_arith)
        requires
            0 <= g < nx * ny,
            nx >= 0,
            ny >= 0,
    ;
    vstd::arithmetic::div_mod::lemma_fundamental_div_mod(g, nx);
    let gx = g % nx;
    let gy = g / nx;
    assert(0 <= gy < ny) by (nonlinear_arith)
        requires
            g == nx * gy + gx,
            0 <= gx < nx,
            0 <= g < nx * ny,
            nx >= 1,
    ;
    assert(gx * d < w && gy * d < h) by (nonlinear_arith)
        requires
            0 <= gx < nx,
            0 <= gy < ny,
            w + d - 1 == d * nx + (w + d - 1) % d,
            h + d - 1 == d * ny + (h + d - 1) % d,
            0 <= (w + d - 1) % d < d,
            0 <= (h + d - 1) % d < d,
            d >= 1,
    ;
}

/// Whether the DC samples and maps of every LF group (256 x 256 blocks, in
/// raster order) can be written.
pub open spec fn spec_lf_groups_ok(
    dc_y: Seq<i32>,
    dc_x: Seq<i32>,
    dc_b: Seq<i32>,
    raw_quant_map: Seq<u8>,
    transform_map: Seq<u8>,
    ytox_map: Seq<i32>,
    ytob_map: Seq<i32>,
    bw: int,
    bh: int,
) -> bool {
    let nx = spec_div_ceil(bw, 256);
    let n = nx * spec_div_ceil(bh, 256);
    forall|g: int|
        0 <= g < n ==> {
            let (x0, gw) = #[trigger] spec_group_span(g % nx, 256, bw);
            let (y0, gh) = spec_group_span(g / nx, 256, bh);
            spec_dc_and_metadata_ok(
                dc_y,
                dc_x,
                dc_b,
                raw_quant_map,
                transform_map,
                ytox_map,
                ytob_map,
                bw,
                bh,
                x0,
                y0,
                gw,
                gh,
            )
        }
}

/// The sections of all LF groups of a frame, in raster order.
pub fn encode_lf_group_sections(
    bw: usize,
    bh: usize,
    dc_y: &[i32],
    dc_x: &[i32],
    dc_b: &[i32],
    raw_quant_map: &[u8],
    transform_map: &[u8],
    ytox_map: &[i32],
    ytob_map: &[i32],
) -> (r: Vec<Vec<HeaderField>>)
    requires
        bw + 256 <= usize::MAX,
        bh + 256 <= usize::MAX,
        bw * bh <= usize::MAX,
        spec_lf_groups_ok(
            dc_y@,
            dc_x@,
            dc_b@,
            raw_quant_map@,
            transform_map@,
            ytox_map@,
            ytob_map@,
            bw as int,
            bh as int,
        ),
    ensures
        ({
            let nx = spec_div_ceil(bw as int, 256);
            let n = nx * spec_div_ceil(bh as int, 256);
            &&& r@.len() == n
            &&& forall|g: int|
                0 <= g < n ==> spec_field_views((#[trigger] r@[g])@) == spec_lf_group_fields(
                    g % nx,
                    g / nx,
                    bw as int,
                    bh as int,
                    256,
                    dc_y@,
                    dc_x@,
                    dc_b@,
                    raw_quant_map@,
                    transform_map@,
                    ytox_map@,
                    ytob_map@,
                )
        }),
{
    let nx = div_ceil(bw, 256);
    let ny = div_ceil(bh, 256);
    proof {
        lemma_div_ceil(bw as int, 256);
        lemma_div_ceil(bh as int, 256);
        if bw >= 1 && bh >= 1 {
            lemma_ceil_le(bw as int, 256);
            lemma_ceil_le(bh as int, 256);
            assert(nx * ny <= bw * bh) by (nonlinear_arith)
                requires
                    nx <= bw,
                    ny <= bh,
            ;
        } else {
            assert(nx == 0 || ny == 0);
            assert(nx * ny == 0) by (nonlinear_arith)
                requires
                    nx == 0 || ny == 0,
            ;
        }
    }
    let n = nx * ny;
    let mut out: Vec<Vec<HeaderField>> = Vec::new();
    let mut g: usize = 0;
    while g < n
        invariant
            g <= n,
            n == nx * ny,
            nx == spec_div_ceil(bw as int, 256),
            ny == spec_div_ceil(bh as int, 256),
            bw + 256 <= usize::MAX,
            bh + 256 <= usize::MAX,
            spec_lf_groups_ok(
                dc_y@,
                dc_x@,
                dc_b@,
                raw_quant_map@,
                transform_map@,
                ytox_map@,
                ytob_map@,
                bw as int,
                bh as int,
            ),
            out@.len() == g,
            forall|h: int|
                0 <= h < g ==> spec_field_views((#[trigger] out@[h])@) == spec_lf_group_fields(
                    h % (nx as int),
                    h / (nx as int),
                    bw as int,
                    bh as int,
                    256,
                    dc_y@,
                    dc_x@,
                    dc_b@,
                    raw_quant_map@,
                    transform_map@,
                    ytox_map@,
                    ytob_map@,
                ),
        decreases n - g,
    {
        proof {
            lemma_group_cell(g as int, nx as int, ny as int, bw as int, bh as int, 256);
            let (x0, gw) = spec_group_span((g as int) % (nx as int), 256, bw as int);
            let (y0, gh) = spec_group_span((g as int) / (nx as int), 256, bh as int);
            assert(spec_dc_and_metadata_ok(
                dc_y@,
                dc_x@,
                dc_b@,
                raw_quant_map@,
                transform_map@,
                ytox_map@,
                ytob_map@,
                bw as int,
                bh as int,
                x0,
                y0,
                gw,
                gh,
            ));
        }
        let s = encode_lf_group_section(
            g % nx,
            g / nx,
            bw,
            bh,
            256,
            dc_y,
            dc_x,
            dc_b,
            raw_quant_map,
            transform_map,
            ytox_map,
            ytob_map,
        );
        out.push(s);
        g = g + 1;
    }
    out
}

proof fn lemma_merged_contexts(t: Seq<Vec<Vec<AcToken>>>, g: int, n: int, bound: nat)
    requires
        forall|p: int| 0 <= p < n ==> spec_contexts_below(#[trigger] t[p]@[g]@, bound),
    ensures
        spec_contexts_below(spec_merged_group_tokens(t, g, n), bound),
    decreases n,
{
    if n > 0 {
        lemma_merged_contexts(t, g, n - 1, bound);
        let a = spec_merged_group_tokens(t, g, n - 1);
        let b = t[n - 1]@[g]@;
        assert forall|i: int| 0 <= i < (a + b).len() implies (#[trigger] (a + b)[i]).context < bound by {
            if i < a.len() {
                assert((a + b)[i] == a[i]);
            } else {
                assert((a + b)[i] == b[i - a.len()]);
            }
        }
    }
}

/// Every token of a multi-group frame, per pass and group or joined per
/// group, lies in one of the frame's 15 * 495 AC contexts (15 block
/// contexts, each with 37 non-zero-count and 458 zero-density contexts), so
/// counting the tokens per context never leaves the counts.
pub proof fn lemma_frame_tokens_in_contexts(
    t: FramePassTokens,
    ac_x: Seq<i32>,
    ac_y: Seq<i32>,
    ac_b: Seq<i32>,
    map: Seq<u8>,
    quant: Seq<u8>,
    bw: int,
    bh: int,
    num_passes: usize,
    pass_shifts: Seq<u32>,
    effort: u8,
)
    requires
        spec_frame_pass_tokens(Ok(t), ac_x, ac_y, ac_b, map, quant, bw, bh, num_passes, pass_shifts, effort),
    ensures
        forall|p: int, g: int|
            0 <= p < t.group_tokens_passes@.len() && 0 <= g < t.group_tokens_passes@[p]@.len()
                ==> spec_contexts_below((#[trigger] t.group_tokens_passes@[p]@[g])@, 15 * 495),
        forall|g: int|
            0 <= g < t.merged_group_tokens@.len() ==> spec_contexts_below(
                (#[trigger] t.merged_group_tokens@[g])@,
                15 * 495,
            ),
{
    let np = num_passes as int;
    let xs = spec_split_planes(ac_x, np, pass_shifts, effort);
    let ys = spec_split_planes(ac_y, np, pass_shifts, effort);
    let bs = spec_split_planes(ac_b, np, pass_shifts, effort);
    let gx = spec_div_ceil(bw, 32);
    let ng = gx * spec_div_ceil(bh, 32);
    let orders = spec_frame_custom_orders(
        ac_x,
        ac_y,
        ac_b,
        map,
        bw,
        bh,
        spec_effort_params(effort).enable_custom_coeff_orders,
        num_passes,
    );
    let tp = t.group_tokens_passes;
    assert forall|p: int, g: int| 0 <= p < tp@.len() && 0 <= g < tp@[p]@.len() implies spec_contexts_below(
        (#[trigger] tp@[p]@[g])@,
        15 * 495,
    ) by {
        let reg = spec_group_region(xs, ys, bs, map, quant, bw, bh, gx, p, g, orders);
        lemma_region_token_contexts(reg);
        assert(spec_tokenize_region(reg) == Ok::<Seq<AcToken>, Error>(tp@[p]@[g]@));
    }
    assert forall|g: int| 0 <= g < t.merged_group_tokens@.len() implies spec_contexts_below(
        (#[trigger] t.merged_group_tokens@[g])@,
        15 * 495,
    ) by {
        assert forall|p: int| 0 <= p < np implies spec_contexts_below(#[trigger] tp@[p]@[g]@, 15 * 495) by {
            assert(tp@[p]@.len() == ng);
        }
        lemma_merged_contexts(tp@, g, np, 15 * 495);
    }
}

/// With a single pass nothing is split: the one pass of each group carries
/// the tokens of the frame's own coefficients, and joining the passes gives
/// them back unchanged.
pub proof fn lemma_single_pass_tokens(
    t: FramePassTokens,
    ac_x: Seq<i32>,
    ac_y: Seq<i32>,
    ac_b: Seq<i32>,
    map: Seq<u8>,
    quant: Seq<u8>,
    bw: int,
    bh: int,
    pass_shifts: Seq<u32>,
    effort: u8,
)
    requires
        spec_frame_pass_tokens(Ok(t), ac_x, ac_y, ac_b, map, quant, bw, bh, 1, pass_shifts, effort),
    ensures
        ({
            let gx = spec_div_ceil(bw, 32);
            let ng = gx * spec_div_ceil(bh, 32);
            let orders = spec_frame_custom_orders(
                ac_x,
                ac_y,
                ac_b,
                map,
                bw,
                bh,
                spec_effort_params(effort).enable_custom_coeff_orders,
                1,
            );
            forall|g: int|
                0 <= g < ng ==> {
                    &&& spec_tokenize_region(
                        spec_group_region(seq![ac_x], seq![ac_y], seq![ac_b], map, quant, bw, bh, gx, 0, g, orders),
                    ) == Ok::<Seq<AcToken>, Error>((#[trigger] t.group_tokens_passes@[0]@[g])@)
                    &&& t.merged_group_tokens@[g]@ == t.group_tokens_passes@[0]@[g]@
                }
        }),
{
    assert(spec_split_planes(ac_x, 1, pass_shifts, effort)[0] =~= ac_x);
    assert(spec_split_planes(ac_y, 1, pass_shifts, effort)[0] =~= ac_y);
    assert(spec_split_planes(ac_b, 1, pass_shifts, effort)[0] =~= ac_b);
    let gx = spec_div_ceil(bw, 32);
    let ng = gx * spec_div_ceil(bh, 32);
    assert forall|g: int| 0 <= g < ng implies t.merged_group_tokens@[g]@ == (
    #[trigger] t.group_tokens_passes@[0]@[g])@ by {
        assert(spec_merged_group_tokens(t.group_tokens_passes@, g, 0) =~= Seq::<AcToken>::empty());
        assert(spec_merged_group_tokens(t.group_tokens_passes@, g, 1) =~= t.group_tokens_passes@[0]@[g]@);
    }
}

} // verus!

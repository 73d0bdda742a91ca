use vstd::prelude::*;
use crate::context_map::{lemma_dedup_props, push_unique, spec_dedup, spec_dedup_step, spec_map_views};
use crate::merge_map::{
    build_low_energy_merge_transform_map, build_zero_merge_transform_map,
    lemma_merge_map_only_multi_block, lemma_merge_map_tiles, lemma_merge_map_well_formed,
    lemma_one_block_map_tiles, spec_budget_fits, spec_greedy_merge_map, spec_one_block_entries,
    spec_only_multi_block, MergeRule,
};
use crate::special_map::{
    build_afv_transform_map_from_quantized_ac, build_compact_special_transform_map_from_quantized_ac,
    build_directional_special_transform_map_from_quantized_ac,
    build_mixed_special_transform_map_from_quantized_ac, dct8_map, f32_at_least, f32_below,
    lemma_special_map_one_block, lemma_special_map_well_formed, spec_dct8_map, spec_f32_at_least, spec_f32_below, spec_f32_max,
    spec_special_inputs_ok, spec_special_transform_map, SpecialKind, DISTANCE_1_5, DISTANCE_1_8,
    DISTANCE_2_0, DISTANCE_2_5, DISTANCE_3_0,
};
use crate::tokenize::{lemma_tokenize_accepts_well_formed, spec_tokenize_region, HfRegion};
use crate::transform::{
    spec_covered_x, spec_covered_y, spec_type_of_id, HfTransformType, DCT128X256_TRANSFORM_ID,
    DCT128X64_TRANSFORM_ID, DCT128_TRANSFORM_ID, DCT16X32_TRANSFORM_ID, DCT16X8_TRANSFORM_ID,
    DCT16_TRANSFORM_ID, DCT256X128_TRANSFORM_ID, DCT256_TRANSFORM_ID, DCT32X16_TRANSFORM_ID,
    DCT32X64_TRANSFORM_ID, DCT32X8_TRANSFORM_ID, DCT32_TRANSFORM_ID, DCT64X128_TRANSFORM_ID,
    DCT64X32_TRANSFORM_ID, DCT64_TRANSFORM_ID, DCT8X16_TRANSFORM_ID, DCT8X32_TRANSFORM_ID,
};
use crate::transform_map::{
    lemma_zero_non_dct8_accepts_well_formed, spec_tiling, spec_well_formed_map, spec_zero_non_dct8,
};

verus! {

/// DCT16 alone.
pub open spec fn spec_priority_16() -> Seq<u8> {
    seq![DCT16_TRANSFORM_ID]
}

/// DCT32, then DCT16.
pub open spec fn spec_priority_a() -> Seq<u8> {
    seq![DCT32_TRANSFORM_ID, DCT16_TRANSFORM_ID]
}

/// DCT32, the 32-long rectangles, the 16-long rectangles, then DCT16.
pub open spec fn spec_priority_b() -> Seq<u8> {
    seq![
        DCT32_TRANSFORM_ID,
        DCT16X32_TRANSFORM_ID,
        DCT32X16_TRANSFORM_ID,
        DCT8X32_TRANSFORM_ID,
        DCT32X8_TRANSFORM_ID,
        DCT8X16_TRANSFORM_ID,
        DCT16X8_TRANSFORM_ID,
        DCT16_TRANSFORM_ID,
    ]
}

/// `spec_priority_b` without DCT32.
pub open spec fn spec_priority_c() -> Seq<u8> {
    seq![
        DCT16X32_TRANSFORM_ID,
        DCT32X16_TRANSFORM_ID,
        DCT8X32_TRANSFORM_ID,
        DCT32X8_TRANSFORM_ID,
        DCT8X16_TRANSFORM_ID,
        DCT16X8_TRANSFORM_ID,
        DCT16_TRANSFORM_ID,
    ]
}

/// The 32-long rectangles, then DCT16.
pub open spec fn spec_priority_d() -> Seq<u8> {
    seq![
        DCT16X32_TRANSFORM_ID,
        DCT32X16_TRANSFORM_ID,
        DCT8X32_TRANSFORM_ID,
        DCT32X8_TRANSFORM_ID,
        DCT16_TRANSFORM_ID,
    ]
}

/// The 64 family, DCT32 and its 16-wide rectangles, then DCT16.
pub open spec fn spec_priority_e() -> Seq<u8> {
    seq![
        DCT64_TRANSFORM_ID,
        DCT32X64_TRANSFORM_ID,
        DCT64X32_TRANSFORM_ID,
        DCT32_TRANSFORM_ID,
        DCT16X32_TRANSFORM_ID,
        DCT32X16_TRANSFORM_ID,
        DCT16_TRANSFORM_ID,
    ]
}

/// `spec_priority_e` with the 8-wide 32-long rectangles before DCT16.
pub open spec fn spec_priority_f() -> Seq<u8> {
    seq![
        DCT64_TRANSFORM_ID,
        DCT32X64_TRANSFORM_ID,
        DCT64X32_TRANSFORM_ID,
        DCT32_TRANSFORM_ID,
        DCT16X32_TRANSFORM_ID,
        DCT32X16_TRANSFORM_ID,
        DCT8X32_TRANSFORM_ID,
        DCT32X8_TRANSFORM_ID,
        DCT16_TRANSFORM_ID,
    ]
}

/// The 128 family down to DCT16.
pub open spec fn spec_priority_g() -> Seq<u8> {
    seq![
        DCT128_TRANSFORM_ID,
        DCT64X128_TRANSFORM_ID,
        DCT128X64_TRANSFORM_ID,
        DCT64_TRANSFORM_ID,
        DCT32X64_TRANSFORM_ID,
        DCT64X32_TRANSFORM_ID,
        DCT32_TRANSFORM_ID,
        DCT16X32_TRANSFORM_ID,
        DCT32X16_TRANSFORM_ID,
        DCT16_TRANSFORM_ID,
    ]
}

/// The 256 family down to DCT16.
pub open spec fn spec_priority_h() -> Seq<u8> {
    seq![
        DCT256_TRANSFORM_ID,
        DCT128X256_TRANSFORM_ID,
        DCT256X128_TRANSFORM_ID,
        DCT128_TRANSFORM_ID,
        DCT64X128_TRANSFORM_ID,
        DCT128X64_TRANSFORM_ID,
        DCT64_TRANSFORM_ID,
        DCT32X64_TRANSFORM_ID,
        DCT64X32_TRANSFORM_ID,
        DCT32_TRANSFORM_ID,
        DCT16_TRANSFORM_ID,
    ]
}

/// The all-zero merge map with priority `p`.
pub open spec fn spec_zm(ac_x: Seq<i32>, ac_y: Seq<i32>, ac_b: Seq<i32>, bw: int, bh: int, p: Seq<u8>) -> Seq<u8> {
    spec_greedy_merge_map(MergeRule::AllZero, ac_x, ac_y, ac_b, bw, bh, p)
}

/// The low-energy merge map with priority `p` and per-block budget `t`.
pub open spec fn spec_le(
    ac_x: Seq<i32>,
    ac_y: Seq<i32>,
    ac_b: Seq<i32>,
    bw: int,
    bh: int,
    p: Seq<u8>,
    t: u64,
) -> Seq<u8> {
    spec_greedy_merge_map(MergeRule::EnergyBudget(t), ac_x, ac_y, ac_b, bw, bh, p)
}

/// The single transform map chosen from quantized AC: all-zero DCT16
/// merges from distance 1.5 on, all DCT8 below (or for a NaN distance).
pub open spec fn spec_map_from_quantized_ac(
    ac_x: Seq<i32>,
    ac_y: Seq<i32>,
    ac_b: Seq<i32>,
    bw: int,
    bh: int,
    distance_bits: u32,
) -> Seq<u8> {
    if spec_f32_at_least(distance_bits, DISTANCE_1_5) {
        spec_zm(ac_x, ac_y, ac_b, bw, bh, spec_priority_16())
    } else {
        spec_dct8_map(bw * bh)
    }
}

proof fn lemma_covered_area(t: HfTransformType)
    ensures
        spec_covered_x(t) * spec_covered_y(t) <= 1024,
{
}

proof fn lemma_budget_fits(t: u64, p: Seq<u8>)
    requires
        t <= 1024,
    ensures
        spec_budget_fits(MergeRule::EnergyBudget(t), p),
{
    assert forall|k: int| 0 <= k < p.len() && p[k] < 27 implies t * (spec_covered_x(
        spec_type_of_id(p[k] as int),
    ) * spec_covered_y(spec_type_of_id(#[trigger] p[k] as int))) <= u64::MAX by {
        let ty = spec_type_of_id(p[k] as int);
        lemma_covered_area(ty);
        let a = spec_covered_x(ty) * spec_covered_y(ty);
        assert(t * a <= 1024 * 1024) by (nonlinear_arith)
            requires
                t <= 1024,
                a <= 1024,
        ;
    }
}


fn priority_16() -> (r: Vec<u8>)
    ensures
        r@ == spec_priority_16(),
{
    vec![DCT16_TRANSFORM_ID]
}

fn priority_a() -> (r: Vec<u8>)
    ensures
        r@ == spec_priority_a(),
{
    vec![DCT32_TRANSFORM_ID, DCT16_TRANSFORM_ID]
}

fn priority_b() -> (r: Vec<u8>)
    ensures
        r@ == spec_priority_b(),
{
    vec![
        DCT32_TRANSFORM_ID,
        DCT16X32_TRANSFORM_ID,
        DCT32X16_TRANSFORM_ID,
        DCT8X32_TRANSFORM_ID,
        DCT32X8_TRANSFORM_ID,
        DCT8X16_TRANSFORM_ID,
        DCT16X8_TRANSFORM_ID,
        DCT16_TRANSFORM_ID,
    ]
}

fn priority_c() -> (r: Vec<u8>)
    ensures
        r@ == spec_priority_c(),
{
    vec![
        DCT16X32_TRANSFORM_ID,
        DCT32X16_TRANSFORM_ID,
        DCT8X32_TRANSFORM_ID,
        DCT32X8_TRANSFORM_ID,
        DCT8X16_TRANSFORM_ID,
        DCT16X8_TRANSFORM_ID,
        DCT16_TRANSFORM_ID,
    ]
}

fn priority_d() -> (r: Vec<u8>)
    ensures
        r@ == spec_priority_d(),
{
    vec![
        DCT16X32_TRANSFORM_ID,
        DCT32X16_TRANSFORM_ID,
        DCT8X32_TRANSFORM_ID,
        DCT32X8_TRANSFORM_ID,
        DCT16_TRANSFORM_ID,
    ]
}

fn priority_e() -> (r: Vec<u8>)
    ensures
        r@ == spec_priority_e(),
{
    vec![
        DCT64_TRANSFORM_ID,
        DCT32X64_TRANSFORM_ID,
        DCT64X32_TRANSFORM_ID,
        DCT32_TRANSFORM_ID,
        DCT16X32_TRANSFORM_ID,
        DCT32X16_TRANSFORM_ID,
        DCT16_TRANSFORM_ID,
    ]
}

fn priority_f() -> (r: Vec<u8>)
    ensures
        r@ == spec_priority_f(),
{
    vec![
        DCT64_TRANSFORM_ID,
        DCT32X64_TRANSFORM_ID,
        DCT64X32_TRANSFORM_ID,
        DCT32_TRANSFORM_ID,
        DCT16X32_TRANSFORM_ID,
        DCT32X16_TRANSFORM_ID,
        DCT8X32_TRANSFORM_ID,
        DCT32X8_TRANSFORM_ID,
        DCT16_TRANSFORM_ID,
    ]
}

fn priority_g() -> (r: Vec<u8>)
    ensures
        r@ == spec_priority_g(),
{
    vec![
        DCT128_TRANSFORM_ID,
        DCT64X128_TRANSFORM_ID,
        DCT128X64_TRANSFORM_ID,
        DCT64_TRANSFORM_ID,
        DCT32X64_TRANSFORM_ID,
        DCT64X32_TRANSFORM_ID,
        DCT32_TRANSFORM_ID,
        DCT16X32_TRANSFORM_ID,
        DCT32X16_TRANSFORM_ID,
        DCT16_TRANSFORM_ID,
    ]
}

fn priority_h() -> (r: Vec<u8>)
    ensures
        r@ == spec_priority_h(),
{
    vec![
        DCT256_TRANSFORM_ID,
        DCT128X256_TRANSFORM_ID,
        DCT256X128_TRANSFORM_ID,
        DCT128_TRANSFORM_ID,
        DCT64X128_TRANSFORM_ID,
        DCT128X64_TRANSFORM_ID,
        DCT64_TRANSFORM_ID,
        DCT32X64_TRANSFORM_ID,
        DCT64X32_TRANSFORM_ID,
        DCT32_TRANSFORM_ID,
        DCT16_TRANSFORM_ID,
    ]
}

/// Chooses one transform map from quantized AC at distance `distance_bits`
/// (the distance's `f32` bit pattern): from distance 1.5 on, every all-zero
/// 2x2-block region that fits is merged into a DCT16; below it (or for a NaN
/// distance) every block stays DCT8.
pub fn build_transform_map_from_quantized_ac(
    ac_x: &[i32],
    ac_y: &[i32],
    ac_b: &[i32],
    bw: usize,
    bh: usize,
    distance_bits: u32,
) -> (r: Vec<u8>)
    requires
        bw * bh <= usize::MAX,
        spec_f32_at_least(distance_bits, DISTANCE_1_5) ==> {
            &&& ac_x@.len() >= bw * bh * 64
            &&& ac_y@.len() >= bw * bh * 64
            &&& ac_b@.len() >= bw * bh * 64
        },
    ensures
        r@ == spec_map_from_quantized_ac(ac_x@, ac_y@, ac_b@, bw as int, bh as int, distance_bits),
{
    if f32_at_least(distance_bits, DISTANCE_1_5) {
        let p = priority_16();
        return build_zero_merge_transform_map(ac_x, ac_y, ac_b, bw, bh, p.as_slice());
    }
    dct8_map(bw, bh)
}

proof fn lemma_dedup_push(list: Seq<Seq<u8>>, x: Seq<u8>)
    ensures
        spec_dedup(list.push(x)) == spec_dedup_step(spec_dedup(list), x),
{
    assert(list.push(x).drop_last() =~= list);
}

fn add_candidate(unique: &mut Vec<Vec<u8>>, c: Vec<u8>, Ghost(list): Ghost<Seq<Seq<u8>>>)
    requires
        spec_map_views(old(unique)@) == spec_dedup(list),
    ensures
        spec_map_views(final(unique)@) == spec_dedup(list.push(c@)),
{
    proof {
        lemma_dedup_push(list, c@);
    }
    push_unique(unique, c);
}

fn add_low_energy(
    unique: &mut Vec<Vec<u8>>,
    ac_x: &[i32],
    ac_y: &[i32],
    ac_b: &[i32],
    bw: usize,
    bh: usize,
    p: Vec<u8>,
    t: u64,
    Ghost(list): Ghost<Seq<Seq<u8>>>,
)
    requires
        spec_map_views(old(unique)@) == spec_dedup(list),
        ac_x@.len() >= bw * bh * 64,
        ac_y@.len() >= bw * bh * 64,
        ac_b@.len() >= bw * bh * 64,
        t <= 1024,
    ensures
        spec_map_views(final(unique)@) == spec_dedup(
            list.push(spec_le(ac_x@, ac_y@, ac_b@, bw as int, bh as int, p@, t)),
        ),
{
    proof {
        lemma_budget_fits(t, p@);
    }
    let m = build_low_energy_merge_transform_map(ac_x, ac_y, ac_b, bw, bh, p.as_slice(), t);
    add_candidate(unique, m, Ghost(list));
}

fn add_zero_merge(
    unique: &mut Vec<Vec<u8>>,
    ac_x: &[i32],
    ac_y: &[i32],
    ac_b: &[i32],
    bw: usize,
    bh: usize,
    p: Vec<u8>,
    Ghost(list): Ghost<Seq<Seq<u8>>>,
)
    requires
        spec_map_views(old(unique)@) == spec_dedup(list),
        ac_x@.len() >= bw * bh * 64,
        ac_y@.len() >= bw * bh * 64,
        ac_b@.len() >= bw * bh * 64,
    ensures
        spec_map_views(final(unique)@) == spec_dedup(
            list.push(spec_zm(ac_x@, ac_y@, ac_b@, bw as int, bh as int, p@)),
        ),
{
    let m = build_zero_merge_transform_map(ac_x, ac_y, ac_b, bw, bh, p.as_slice());
    add_candidate(unique, m, Ghost(list));
}


/// `s` when `c` holds, nothing otherwise.
pub open spec fn spec_opt(c: bool, s: Seq<Seq<u8>>) -> Seq<Seq<u8>> {
    if c {
        s
    } else {
        Seq::empty()
    }
}

/// The four candidates every grid gets from distance 1.5 on: all DCT8, the
/// single map from quantized AC, and the all-zero merges with priorities A and B.
pub open spec fn spec_head_candidates(
    ac_x: Seq<i32>,
    ac_y: Seq<i32>,
    ac_b: Seq<i32>,
    bw: int,
    bh: int,
    d: u32,
) -> Seq<Seq<u8>> {
    seq![
        spec_dct8_map(bw * bh),
        spec_map_from_quantized_ac(ac_x, ac_y, ac_b, bw, bh, d),
        spec_zm(ac_x, ac_y, ac_b, bw, bh, spec_priority_a()),
        spec_zm(ac_x, ac_y, ac_b, bw, bh, spec_priority_b()),
    ]
}

/// Further candidates of a grid of more than 8192 blocks.
pub open spec fn spec_large_extra(
    ac_x: Seq<i32>,
    ac_y: Seq<i32>,
    ac_b: Seq<i32>,
    bw: int,
    bh: int,
    d: u32,
) -> Seq<Seq<u8>> {
    spec_opt(
        spec_f32_at_least(d, DISTANCE_2_0),
        seq![spec_le(ac_x, ac_y, ac_b, bw, bh, spec_priority_c(), 3)],
    ) + spec_opt(
        spec_f32_at_least(d, DISTANCE_2_5),
        seq![
            spec_le(
                ac_x,
                ac_y,
                ac_b,
                bw,
                bh,
                spec_priority_b(),
                if spec_f32_at_least(d, DISTANCE_3_0) {
                    8
                } else {
                    5
                },
            ),
        ],
    )
}

/// Low-energy candidates of smaller grids from distances 1.8 and 2.0.
pub open spec fn spec_small_extra_low(
    ac_x: Seq<i32>,
    ac_y: Seq<i32>,
    ac_b: Seq<i32>,
    bw: int,
    bh: int,
    d: u32,
) -> Seq<Seq<u8>> {
    spec_opt(
        spec_f32_at_least(d, DISTANCE_1_8),
        seq![spec_le(ac_x, ac_y, ac_b, bw, bh, spec_priority_16(), 3)],
    ) + spec_opt(
        spec_f32_at_least(d, DISTANCE_2_0),
        seq![
            spec_le(ac_x, ac_y, ac_b, bw, bh, spec_priority_16(), 2),
            spec_le(ac_x, ac_y, ac_b, bw, bh, spec_priority_d(), 3),
            spec_le(ac_x, ac_y, ac_b, bw, bh, spec_priority_c(), 3),
        ],
    )
}

/// Candidates of smaller grids from distance 2.5.
pub open spec fn spec_small_extra_mid(
    ac_x: Seq<i32>,
    ac_y: Seq<i32>,
    ac_b: Seq<i32>,
    bw: int,
    bh: int,
    d: u32,
) -> Seq<Seq<u8>> {
    let n = bw * bh;
    spec_opt(
        spec_f32_at_least(d, DISTANCE_2_5),
        spec_opt(
            n <= 4096,
            seq![spec_special_transform_map(SpecialKind::Afv, ac_x, ac_y, ac_b, n, d)],
        ) + seq![
            spec_le(ac_x, ac_y, ac_b, bw, bh, spec_priority_a(), 4),
            spec_le(ac_x, ac_y, ac_b, bw, bh, spec_priority_b(), 5),
        ] + spec_opt(n <= 4096, seq![spec_le(ac_x, ac_y, ac_b, bw, bh, spec_priority_e(), 6)]),
    )
}

/// Candidates of smaller grids from distance 3.0.
pub open spec fn spec_small_extra_high(
    ac_x: Seq<i32>,
    ac_y: Seq<i32>,
    ac_b: Seq<i32>,
    bw: int,
    bh: int,
    d: u32,
) -> Seq<Seq<u8>> {
    let n = bw * bh;
    spec_opt(
        spec_f32_at_least(d, DISTANCE_3_0),
        spec_opt(
            n <= 4096,
            seq![
                spec_special_transform_map(SpecialKind::Directional, ac_x, ac_y, ac_b, n, d),
                spec_special_transform_map(SpecialKind::Compact, ac_x, ac_y, ac_b, n, d),
                spec_special_transform_map(SpecialKind::Mixed, ac_x, ac_y, ac_b, n, d),
            ],
        ) + seq![spec_le(ac_x, ac_y, ac_b, bw, bh, spec_priority_b(), 8)] + spec_opt(
            n <= 4096,
            seq![spec_le(ac_x, ac_y, ac_b, bw, bh, spec_priority_f(), 10)] + spec_opt(
                bw >= 16 && bh >= 16,
                seq![spec_le(ac_x, ac_y, ac_b, bw, bh, spec_priority_g(), 14)],
            ) + spec_opt(
                n <= 2048 && bw >= 32 && bh >= 32,
                seq![spec_le(ac_x, ac_y, ac_b, bw, bh, spec_priority_h(), 18)],
            ),
        ),
    )
}

/// All candidate transform maps at distance `d`, in order, repeats included.
pub open spec fn spec_candidate_list(
    ac_x: Seq<i32>,
    ac_y: Seq<i32>,
    ac_b: Seq<i32>,
    bw: int,
    bh: int,
    d: u32,
) -> Seq<Seq<u8>> {
    if spec_f32_below(d, DISTANCE_1_5) {
        seq![spec_dct8_map(bw * bh)]
    } else if bw * bh > 8192 {
        spec_head_candidates(ac_x, ac_y, ac_b, bw, bh, d) + spec_large_extra(ac_x, ac_y, ac_b, bw, bh, d)
    } else {
        spec_head_candidates(ac_x, ac_y, ac_b, bw, bh, d) + spec_small_extra_low(
            ac_x,
            ac_y,
            ac_b,
            bw,
            bh,
            d,
        ) + spec_small_extra_mid(ac_x, ac_y, ac_b, bw, bh, d) + spec_small_extra_high(
            ac_x,
            ac_y,
            ac_b,
            bw,
            bh,
            d,
        )
    }
}

/// The distance the candidates are built for: at least 2.5 when large
/// transforms are preferred for flat content.
pub open spec fn spec_effective_distance(distance_bits: u32, prefer_large: bool) -> u32 {
    if prefer_large {
        spec_f32_max(distance_bits, DISTANCE_2_5)
    } else {
        distance_bits
    }
}

/// The candidate transform maps, repeats removed, first occurrences kept in order.
pub open spec fn spec_transform_map_candidates(
    ac_x: Seq<i32>,
    ac_y: Seq<i32>,
    ac_b: Seq<i32>,
    bw: int,
    bh: int,
    distance_bits: u32,
    prefer_large: bool,
) -> Seq<Seq<u8>> {
    spec_dedup(
        spec_candidate_list(ac_x, ac_y, ac_b, bw, bh, spec_effective_distance(distance_bits, prefer_large)),
    )
}

/// What building the candidates at distance `d` reads is there and fits.
pub open spec fn spec_candidates_call_ok(
    ac_x: Seq<i32>,
    ac_y: Seq<i32>,
    ac_b: Seq<i32>,
    bw: int,
    bh: int,
    d: u32,
) -> bool {
    let n = bw * bh;
    &&& n <= usize::MAX
    &&& !spec_f32_below(d, DISTANCE_1_5) ==> {
        &&& ac_x.len() >= n * 64
        &&& ac_y.len() >= n * 64
        &&& ac_b.len() >= n * 64
        &&& n <= 4096 && spec_f32_at_least(d, DISTANCE_2_5) ==> spec_special_inputs_ok(
            SpecialKind::Afv,
            ac_x,
            ac_y,
            ac_b,
            n,
        )
        &&& n <= 4096 && spec_f32_at_least(d, DISTANCE_3_0) ==> {
            &&& spec_special_inputs_ok(SpecialKind::Directional, ac_x, ac_y, ac_b, n)
            &&& spec_special_inputs_ok(SpecialKind::Compact, ac_x, ac_y, ac_b, n)
            &&& spec_special_inputs_ok(SpecialKind::Mixed, ac_x, ac_y, ac_b, n)
        }
    }
}


fn add_large_extra(
    unique: &mut Vec<Vec<u8>>,
    ac_x: &[i32],
    ac_y: &[i32],
    ac_b: &[i32],
    bw: usize,
    bh: usize,
    d: u32,
    Ghost(list): Ghost<Seq<Seq<u8>>>,
)
    requires
        spec_map_views(old(unique)@) == spec_dedup(list),
        ac_x@.len() >= bw * bh * 64,
        ac_y@.len() >= bw * bh * 64,
        ac_b@.len() >= bw * bh * 64,
    ensures
        spec_map_views(final(unique)@) == spec_dedup(
            list + spec_large_extra(ac_x@, ac_y@, ac_b@, bw as int, bh as int, d),
        ),
{
    let ghost (sx, sy, sb, w, h) = (ac_x@, ac_y@, ac_b@, bw as int, bh as int);
    let ghost mut l = list;
    if f32_at_least(d, DISTANCE_2_0) {
        add_low_energy(unique, ac_x, ac_y, ac_b, bw, bh, priority_c(), 3, Ghost(l));
        proof {
            l = l.push(spec_le(sx, sy, sb, w, h, spec_priority_c(), 3));
        }
    }
    if f32_at_least(d, DISTANCE_2_5) {
        let t: u64 = if f32_at_least(d, DISTANCE_3_0) {
            8
        } else {
            5
        };
        add_low_energy(unique, ac_x, ac_y, ac_b, bw, bh, priority_b(), t, Ghost(l));
        proof {
            l = l.push(spec_le(sx, sy, sb, w, h, spec_priority_b(), t));
        }
    }
    assert(l =~= list + spec_large_extra(sx, sy, sb, w, h, d));
}

fn add_small_extra_low(
    unique: &mut Vec<Vec<u8>>,
    ac_x: &[i32],
    ac_y: &[i32],
    ac_b: &[i32],
    bw: usize,
    bh: usize,
    d: u32,
    Ghost(list): Ghost<Seq<Seq<u8>>>,
)
    requires
        spec_map_views(old(unique)@) == spec_dedup(list),
        ac_x@.len() >= bw * bh * 64,
        ac_y@.len() >= bw * bh * 64,
        ac_b@.len() >= bw * bh * 64,
    ensures
        spec_map_views(final(unique)@) == spec_dedup(
            list + spec_small_extra_low(ac_x@, ac_y@, ac_b@, bw as int, bh as int, d),
        ),
{
    let ghost (sx, sy, sb, w, h) = (ac_x@, ac_y@, ac_b@, bw as int, bh as int);
    let ghost mut l = list;
    if f32_at_least(d, DISTANCE_1_8) {
        add_low_energy(unique, ac_x, ac_y, ac_b, bw, bh, priority_16(), 3, Ghost(l));
        proof {
            l = l.push(spec_le(sx, sy, sb, w, h, spec_priority_16(), 3));
        }
    }
    if f32_at_least(d, DISTANCE_2_0) {
        add_low_energy(unique, ac_x, ac_y, ac_b, bw, bh, priority_16(), 2, Ghost(l));
        proof {
            l = l.push(spec_le(sx, sy, sb, w, h, spec_priority_16(), 2));
        }
        add_low_energy(unique, ac_x, ac_y, ac_b, bw, bh, priority_d(), 3, Ghost(l));
        proof {
            l = l.push(spec_le(sx, sy, sb, w, h, spec_priority_d(), 3));
        }
        add_low_energy(unique, ac_x, ac_y, ac_b, bw, bh, priority_c(), 3, Ghost(l));
        proof {
            l = l.push(spec_le(sx, sy, sb, w, h, spec_priority_c(), 3));
        }
    }
    assert(l =~= list + spec_small_extra_low(sx, sy, sb, w, h, d));
}

fn add_small_extra_mid(
    unique: &mut Vec<Vec<u8>>,
    ac_x: &[i32],
    ac_y: &[i32],
    ac_b: &[i32],
    bw: usize,
    bh: usize,
    d: u32,
    Ghost(list): Ghost<Seq<Seq<u8>>>,
)
    requires
        bw * bh <= usize::MAX,
        spec_map_views(old(unique)@) == spec_dedup(list),
        ac_x@.len() >= bw * bh * 64,
        ac_y@.len() >= bw * bh * 64,
        ac_b@.len() >= bw * bh * 64,
        bw * bh <= 4096 && spec_f32_at_least(d, DISTANCE_2_5) ==> spec_special_inputs_ok(
            SpecialKind::Afv,
            ac_x@,
            ac_y@,
            ac_b@,
            bw * bh,
        ),
    ensures
        spec_map_views(final(unique)@) == spec_dedup(
            list + spec_small_extra_mid(ac_x@, ac_y@, ac_b@, bw as int, bh as int, d),
        ),
{
    let ghost (sx, sy, sb, w, h) = (ac_x@, ac_y@, ac_b@, bw as int, bh as int);
    let ghost mut l = list;
    let n = bw * bh;
    if f32_at_least(d, DISTANCE_2_5) {
        if n <= 4096 {
            let m = build_afv_transform_map_from_quantized_ac(ac_x, ac_y, ac_b, bw, bh, d);
            add_candidate(unique, m, Ghost(l));
            proof {
                l = l.push(spec_special_transform_map(SpecialKind::Afv, sx, sy, sb, w * h, d));
            }
        }
        add_low_energy(unique, ac_x, ac_y, ac_b, bw, bh, priority_a(), 4, Ghost(l));
        proof {
            l = l.push(spec_le(sx, sy, sb, w, h, spec_priority_a(), 4));
        }
        add_low_energy(unique, ac_x, ac_y, ac_b, bw, bh, priority_b(), 5, Ghost(l));
        proof {
            l = l.push(spec_le(sx, sy, sb, w, h, spec_priority_b(), 5));
        }
        if n <= 4096 {
            add_low_energy(unique, ac_x, ac_y, ac_b, bw, bh, priority_e(), 6, Ghost(l));
            proof {
                l = l.push(spec_le(sx, sy, sb, w, h, spec_priority_e(), 6));
            }
        }
    }
    assert(l =~= list + spec_small_extra_mid(sx, sy, sb, w, h, d));
}

fn add_small_extra_high(
    unique: &mut Vec<Vec<u8>>,
    ac_x: &[i32],
    ac_y: &[i32],
    ac_b: &[i32],
    bw: usize,
    bh: usize,
    d: u32,
    Ghost(list): Ghost<Seq<Seq<u8>>>,
)
    requires
        bw * bh <= usize::MAX,
        spec_map_views(old(unique)@) == spec_dedup(list),
        ac_x@.len() >= bw * bh * 64,
        ac_y@.len() >= bw * bh * 64,
        ac_b@.len() >= bw * bh * 64,
        bw * bh <= 4096 && spec_f32_at_least(d, DISTANCE_3_0) ==> {
            &&& spec_special_inputs_ok(SpecialKind::Directional, ac_x@, ac_y@, ac_b@, bw * bh)
            &&& spec_special_inputs_ok(SpecialKind::Compact, ac_x@, ac_y@, ac_b@, bw * bh)
            &&& spec_special_inputs_ok(SpecialKind::Mixed, ac_x@, ac_y@, ac_b@, bw * bh)
        },
    ensures
        spec_map_views(final(unique)@) == spec_dedup(
            list + spec_small_extra_high(ac_x@, ac_y@, ac_b@, bw as int, bh as int, d),
        ),
{
    let ghost (sx, sy, sb, w, h) = (ac_x@, ac_y@, ac_b@, bw as int, bh as int);
    let ghost mut l = list;
    let n = bw * bh;
    if f32_at_least(d, DISTANCE_3_0) {
        if n <= 4096 {
            let m = build_directional_special_transform_map_from_quantized_ac(ac_x, ac_y, ac_b, bw, bh, d);
            add_candidate(unique, m, Ghost(l));
            proof {
                l = l.push(spec_special_transform_map(SpecialKind::Directional, sx, sy, sb, w * h, d));
            }
            let m = build_compact_special_transform_map_from_quantized_ac(ac_x, ac_y, ac_b, bw, bh, d);
            add_candidate(unique, m, Ghost(l));
            proof {
                l = l.push(spec_special_transform_map(SpecialKind::Compact, sx, sy, sb, w * h, d));
            }
            let m = build_mixed_special_transform_map_from_quantized_ac(ac_x, ac_y, ac_b, bw, bh, d);
            add_candidate(unique, m, Ghost(l));
            proof {
                l = l.push(spec_special_transform_map(SpecialKind::Mixed, sx, sy, sb, w * h, d));
            }
        }
        add_low_energy(unique, ac_x, ac_y, ac_b, bw, bh, priority_b(), 8, Ghost(l));
        proof {
            l = l.push(spec_le(sx, sy, sb, w, h, spec_priority_b(), 8));
        }
        if n <= 4096 {
            add_low_energy(unique, ac_x, ac_y, ac_b, bw, bh, priority_f(), 10, Ghost(l));
            proof {
                l = l.push(spec_le(sx, sy, sb, w, h, spec_priority_f(), 10));
            }
            if bw >= 16 && bh >= 16 {
                add_low_energy(unique, ac_x, ac_y, ac_b, bw, bh, priority_g(), 14, Ghost(l));
                proof {
                    l = l.push(spec_le(sx, sy, sb, w, h, spec_priority_g(), 14));
                }
            }
            if n <= 2048 && bw >= 32 && bh >= 32 {
                add_low_energy(unique, ac_x, ac_y, ac_b, bw, bh, priority_h(), 18, Ghost(l));
                proof {
                    l = l.push(spec_le(sx, sy, sb, w, h, spec_priority_h(), 18));
                }
            }
        }
    }
    assert(l =~= list + spec_small_extra_high(sx, sy, sb, w, h, d));
}

/// The candidate transform maps for quantized AC at distance `distance_bits`
/// (the distance's `f32` bit pattern), repeats removed with first occurrences
/// kept in order. With `prefer_large_transforms_for_flat` the distance is
/// raised to at least 2.5 first. Below distance 1.5 the only candidate is
/// all DCT8. Otherwise the candidates are all DCT8, the map from quantized
/// AC, two all-zero merges, and low-energy merges and special-transform maps
/// that depend on the distance and on the grid's size (see
/// `spec_candidate_list`).
pub fn build_transform_map_candidates_from_quantized_ac_with_flags(
    ac_x: &[i32],
    ac_y: &[i32],
    ac_b: &[i32],
    bw: usize,
    bh: usize,
    distance_bits: u32,
    prefer_large_transforms_for_flat: bool,
) -> (r: Vec<Vec<u8>>)
    requires
        spec_candidates_call_ok(
            ac_x@,
            ac_y@,
            ac_b@,
            bw as int,
            bh as int,
            spec_effective_distance(distance_bits, prefer_large_transforms_for_flat),
        ),
    ensures
        spec_map_views(r@) == spec_transform_map_candidates(
            ac_x@,
            ac_y@,
            ac_b@,
            bw as int,
            bh as int,
            distance_bits,
            prefer_large_transforms_for_flat,
        ),
{
    let ghost (sx, sy, sb, w, h) = (ac_x@, ac_y@, ac_b@, bw as int, bh as int);
    let d = if prefer_large_transforms_for_flat {
        if f32_at_least(distance_bits, DISTANCE_2_5) {
            distance_bits
        } else {
            DISTANCE_2_5
        }
    } else {
        distance_bits
    };
    let mut unique: Vec<Vec<u8>> = Vec::new();
    assert(spec_map_views(unique@) =~= spec_dedup(Seq::empty()));
    let ghost mut l: Seq<Seq<u8>> = Seq::empty();
    let default_map = dct8_map(bw, bh);
    add_candidate(&mut unique, default_map, Ghost(l));
    proof {
        l = l.push(spec_dct8_map(w * h));
    }
    if f32_below(d, DISTANCE_1_5) {
        assert(l =~= spec_candidate_list(sx, sy, sb, w, h, d));
        return unique;
    }
    let m = build_transform_map_from_quantized_ac(ac_x, ac_y, ac_b, bw, bh, d);
    add_candidate(&mut unique, m, Ghost(l));
    proof {
        l = l.push(spec_map_from_quantized_ac(sx, sy, sb, w, h, d));
    }
    add_zero_merge(&mut unique, ac_x, ac_y, ac_b, bw, bh, priority_a(), Ghost(l));
    proof {
        l = l.push(spec_zm(sx, sy, sb, w, h, spec_priority_a()));
    }
    add_zero_merge(&mut unique, ac_x, ac_y, ac_b, bw, bh, priority_b(), Ghost(l));
    proof {
        l = l.push(spec_zm(sx, sy, sb, w, h, spec_priority_b()));
        assert(l =~= spec_head_candidates(sx, sy, sb, w, h, d));
    }
    if bw * bh > 8192 {
        add_large_extra(&mut unique, ac_x, ac_y, ac_b, bw, bh, d, Ghost(l));
        return unique;
    }
    add_small_extra_low(&mut unique, ac_x, ac_y, ac_b, bw, bh, d, Ghost(l));
    proof {
        l = l + spec_small_extra_low(sx, sy, sb, w, h, d);
    }
    add_small_extra_mid(&mut unique, ac_x, ac_y, ac_b, bw, bh, d, Ghost(l));
    proof {
        l = l + spec_small_extra_mid(sx, sy, sb, w, h, d);
    }
    add_small_extra_high(&mut unique, ac_x, ac_y, ac_b, bw, bh, d, Ghost(l));
    proof {
        l = l + spec_small_extra_high(sx, sy, sb, w, h, d);
        assert(l =~= spec_candidate_list(sx, sy, sb, w, h, d));
    }
    unique
}

/// `build_transform_map_candidates_from_quantized_ac_with_flags` without the
/// preference for large transforms.
pub fn build_transform_map_candidates_from_quantized_ac(
    ac_x: &[i32],
    ac_y: &[i32],
    ac_b: &[i32],
    bw: usize,
    bh: usize,
    distance_bits: u32,
) -> (r: Vec<Vec<u8>>)
    requires
        spec_candidates_call_ok(ac_x@, ac_y@, ac_b@, bw as int, bh as int, distance_bits),
    ensures
        spec_map_views(r@) == spec_transform_map_candidates(
            ac_x@,
            ac_y@,
            ac_b@,
            bw as int,
            bh as int,
            distance_bits,
            false,
        ),
{
    build_transform_map_candidates_from_quantized_ac_with_flags(ac_x, ac_y, ac_b, bw, bh, distance_bits, false)
}


/// `m` is a transform map of exactly the `bw` x `bh` grid, well formed for it.
pub open spec fn spec_map_fits_grid(m: Seq<u8>, bw: int, bh: int) -> bool {
    spec_tiling(m, bw, bh)
}

pub open spec fn spec_all_fit(s: Seq<Seq<u8>>, bw: int, bh: int) -> bool {
    forall|k: int| 0 <= k < s.len() ==> spec_map_fits_grid(#[trigger] s[k], bw, bh)
}

proof fn lemma_dct8_map_fits(bw: int, bh: int)
    requires
        0 <= bw,
        0 <= bh,
    ensures
        spec_map_fits_grid(spec_dct8_map(bw * bh), bw, bh),
{
    assert(bw * bh >= 0) by (nonlinear_arith)
        requires
            0 <= bw,
            0 <= bh,
    ;
    let m = spec_dct8_map(bw * bh);
    assert(crate::transform::spec_entry_id(0x80u8) == 0);
    assert(spec_covered_x(spec_type_of_id(0)) == 1);
    assert(spec_covered_y(spec_type_of_id(0)) == 1);
    assert(spec_one_block_entries(m, bw * bh));
    lemma_one_block_map_tiles(m, bw, bh);
}

proof fn lemma_merge_fits(rule: MergeRule, ac_x: Seq<i32>, ac_y: Seq<i32>, ac_b: Seq<i32>, bw: int, bh: int, p: Seq<u8>)
    requires
        0 <= bw,
        0 <= bh,
    ensures
        spec_map_fits_grid(spec_greedy_merge_map(rule, ac_x, ac_y, ac_b, bw, bh, p), bw, bh),
{
    lemma_merge_map_tiles(rule, ac_x, ac_y, ac_b, bw, bh, p);
}

proof fn lemma_all_fit_concat(a: Seq<Seq<u8>>, b: Seq<Seq<u8>>, bw: int, bh: int)
    requires
        spec_all_fit(a, bw, bh),
        spec_all_fit(b, bw, bh),
    ensures
        spec_all_fit(a + b, bw, bh),
{
    assert forall|k: int| 0 <= k < (a + b).len() implies spec_map_fits_grid(#[trigger] (a + b)[k], bw, bh) by {
        if k < a.len() {
            assert((a + b)[k] == a[k]);
        } else {
            assert((a + b)[k] == b[k - a.len()]);
        }
    }
}

proof fn lemma_list_fits(ac_x: Seq<i32>, ac_y: Seq<i32>, ac_b: Seq<i32>, bw: int, bh: int, d: u32)
    requires
        0 <= bw,
        0 <= bh,
    ensures
        spec_all_fit(spec_candidate_list(ac_x, ac_y, ac_b, bw, bh, d), bw, bh),
{
    let (x, y, b) = (ac_x, ac_y, ac_b);
    lemma_dct8_map_fits(bw, bh);
    assert forall|p: Seq<u8>, t: u64| #[trigger] spec_map_fits_grid(spec_le(x, y, b, bw, bh, p, t), bw, bh) by {
        lemma_merge_fits(MergeRule::EnergyBudget(t), x, y, b, bw, bh, p);
    }
    assert forall|p: Seq<u8>| #[trigger] spec_map_fits_grid(spec_zm(x, y, b, bw, bh, p), bw, bh) by {
        lemma_merge_fits(MergeRule::AllZero, x, y, b, bw, bh, p);
    }
    assert forall|kind: SpecialKind| #[trigger] spec_map_fits_grid(
        spec_special_transform_map(kind, x, y, b, bw * bh, d),
        bw,
        bh,
    ) by {
        lemma_special_map_well_formed(kind, x, y, b, bw, bh, d);
        lemma_special_map_one_block(kind, x, y, b, bw * bh, d);
        lemma_one_block_map_tiles(spec_special_transform_map(kind, x, y, b, bw * bh, d), bw, bh);
    }
    assert(spec_map_fits_grid(spec_map_from_quantized_ac(x, y, b, bw, bh, d), bw, bh));
    let head = spec_head_candidates(x, y, b, bw, bh, d);
    assert(spec_all_fit(head, bw, bh));
    let large = spec_large_extra(x, y, b, bw, bh, d);
    assert(spec_all_fit(large, bw, bh));
    let low = spec_small_extra_low(x, y, b, bw, bh, d);
    assert(spec_all_fit(low, bw, bh));
    let mid = spec_small_extra_mid(x, y, b, bw, bh, d);
    let afv_part = spec_opt(
        bw * bh <= 4096,
        seq![spec_special_transform_map(SpecialKind::Afv, x, y, b, bw * bh, d)],
    );
    assert(spec_all_fit(afv_part, bw, bh));
    let mid2 = seq![spec_le(x, y, b, bw, bh, spec_priority_a(), 4), spec_le(x, y, b, bw, bh, spec_priority_b(), 5)];
    assert(spec_all_fit(mid2, bw, bh));
    let mid3 = spec_opt(bw * bh <= 4096, seq![spec_le(x, y, b, bw, bh, spec_priority_e(), 6)]);
    assert(spec_all_fit(mid3, bw, bh));
    lemma_all_fit_concat(afv_part, mid2, bw, bh);
    lemma_all_fit_concat(afv_part + mid2, mid3, bw, bh);
    assert(spec_all_fit(mid, bw, bh));
    let high = spec_small_extra_high(x, y, b, bw, bh, d);
    let h1 = spec_opt(
        bw * bh <= 4096,
        seq![
            spec_special_transform_map(SpecialKind::Directional, x, y, b, bw * bh, d),
            spec_special_transform_map(SpecialKind::Compact, x, y, b, bw * bh, d),
            spec_special_transform_map(SpecialKind::Mixed, x, y, b, bw * bh, d),
        ],
    );
    assert(spec_all_fit(h1, bw, bh));
    let h2 = seq![spec_le(x, y, b, bw, bh, spec_priority_b(), 8)];
    assert(spec_all_fit(h2, bw, bh));
    let h3a = seq![spec_le(x, y, b, bw, bh, spec_priority_f(), 10)];
    let h3b = spec_opt(bw >= 16 && bh >= 16, seq![spec_le(x, y, b, bw, bh, spec_priority_g(), 14)]);
    let h3c = spec_opt(
        bw * bh <= 2048 && bw >= 32 && bh >= 32,
        seq![spec_le(x, y, b, bw, bh, spec_priority_h(), 18)],
    );
    assert(spec_all_fit(h3a, bw, bh));
    assert(spec_all_fit(h3b, bw, bh));
    assert(spec_all_fit(h3c, bw, bh));
    lemma_all_fit_concat(h3a, h3b, bw, bh);
    lemma_all_fit_concat(h3a + h3b, h3c, bw, bh);
    let h3 = spec_opt(bw * bh <= 4096, h3a + h3b + h3c);
    assert(spec_all_fit(h3, bw, bh));
    lemma_all_fit_concat(h1, h2, bw, bh);
    lemma_all_fit_concat(h1 + h2, h3, bw, bh);
    assert(spec_all_fit(high, bw, bh));
    lemma_all_fit_concat(head, large, bw, bh);
    lemma_all_fit_concat(head, low, bw, bh);
    lemma_all_fit_concat(head + low, mid, bw, bh);
    lemma_all_fit_concat(head + low + mid, high, bw, bh);
    assert(spec_all_fit(seq![spec_dct8_map(bw * bh)], bw, bh));
}

/// The candidate transform maps are pairwise distinct and each tiles the
/// grid (see `spec_tiling`), so clearing the AC coefficients of
/// its non-DCT8 transforms never fails, and neither does tokenizing the
/// whole grid with it.
pub proof fn lemma_candidates_fit_grid(
    ac_x: Seq<i32>,
    ac_y: Seq<i32>,
    ac_b: Seq<i32>,
    bw: int,
    bh: int,
    distance_bits: u32,
    prefer_large: bool,
)
    requires
        0 <= bw,
        0 <= bh,
    ensures
        spec_transform_map_candidates(ac_x, ac_y, ac_b, bw, bh, distance_bits, prefer_large).no_duplicates(),
        spec_all_fit(spec_transform_map_candidates(ac_x, ac_y, ac_b, bw, bh, distance_bits, prefer_large), bw, bh),
        forall|k: int, ac: Seq<i32>|
            0 <= k < spec_transform_map_candidates(ac_x, ac_y, ac_b, bw, bh, distance_bits, prefer_large).len()
                ==> (#[trigger] spec_zero_non_dct8(
                ac,
                spec_transform_map_candidates(ac_x, ac_y, ac_b, bw, bh, distance_bits, prefer_large)[k],
                bw,
                bh,
            )).1 is None,
        forall|r: HfRegion|
            spec_transform_map_candidates(ac_x, ac_y, ac_b, bw, bh, distance_bits, prefer_large).contains(r.map)
                && r.full_bw == bw && r.rw == bw && r.rh == bh && r.x0 == 0 && r.y0 == 0
                ==> #[trigger] spec_tokenize_region(r) is Ok,
{
    let d = spec_effective_distance(distance_bits, prefer_large);
    let list = spec_candidate_list(ac_x, ac_y, ac_b, bw, bh, d);
    let c = spec_transform_map_candidates(ac_x, ac_y, ac_b, bw, bh, distance_bits, prefer_large);
    lemma_list_fits(ac_x, ac_y, ac_b, bw, bh, d);
    lemma_dedup_props(list);
    assert forall|k: int| 0 <= k < c.len() implies spec_map_fits_grid(#[trigger] c[k], bw, bh) by {
        let j = choose|j: int| 0 <= j < list.len() && list[j] == c[k];
        assert(spec_map_fits_grid(list[j], bw, bh));
    }
    assert forall|k: int, ac: Seq<i32>| 0 <= k < c.len() implies (#[trigger] spec_zero_non_dct8(
        ac,
        c[k],
        bw,
        bh,
    )).1 is None by {
        assert(spec_map_fits_grid(c[k], bw, bh));
        lemma_zero_non_dct8_accepts_well_formed(ac, c[k], bw, bh);
    }
    assert forall|r: HfRegion|
        c.contains(r.map) && r.full_bw == bw && r.rw == bw && r.rh == bh && r.x0 == 0 && r.y0 == 0
            implies #[trigger] spec_tokenize_region(r) is Ok by {
        let k = choose|k: int| 0 <= k < c.len() && c[k] == r.map;
        assert(spec_map_fits_grid(c[k], bw, bh));
        lemma_tokenize_accepts_well_formed(r);
    }
}


pub open spec fn spec_all_multi_block(s: Seq<Seq<u8>>) -> bool {
    forall|k: int| 0 <= k < s.len() ==> spec_only_multi_block(#[trigger] s[k])
}

proof fn lemma_all_multi_concat(a: Seq<Seq<u8>>, b: Seq<Seq<u8>>)
    requires
        spec_all_multi_block(a),
        spec_all_multi_block(b),
    ensures
        spec_all_multi_block(a + b),
{
    assert forall|k: int| 0 <= k < (a + b).len() implies spec_only_multi_block(#[trigger] (a + b)[k]) by {
        if k < a.len() {
            assert((a + b)[k] == a[k]);
        } else {
            assert((a + b)[k] == b[k - a.len()]);
        }
    }
}

/// A grid of more than 4096 blocks gets no special-transform candidate:
/// every candidate map holds only DCT8 and transforms larger than one
/// block (so no AFV, DCT4x8, DCT8x4, DCT2x2, DCT4x4 or IDENTITY).
pub proof fn lemma_large_grid_candidates_multi_block(
    ac_x: Seq<i32>,
    ac_y: Seq<i32>,
    ac_b: Seq<i32>,
    bw: int,
    bh: int,
    distance_bits: u32,
    prefer_large: bool,
)
    requires
        bw * bh > 4096,
    ensures
        spec_all_multi_block(spec_transform_map_candidates(ac_x, ac_y, ac_b, bw, bh, distance_bits, prefer_large)),
{
    let (x, y, b) = (ac_x, ac_y, ac_b);
    let d = spec_effective_distance(distance_bits, prefer_large);
    let list = spec_candidate_list(x, y, b, bw, bh, d);
    let c = spec_transform_map_candidates(x, y, b, bw, bh, distance_bits, prefer_large);
    assert(spec_only_multi_block(spec_dct8_map(bw * bh)));
    assert forall|p: Seq<u8>, t: u64| #[trigger] spec_only_multi_block(spec_le(x, y, b, bw, bh, p, t)) by {
        lemma_merge_map_only_multi_block(MergeRule::EnergyBudget(t), x, y, b, bw, bh, p);
    }
    assert forall|p: Seq<u8>| #[trigger] spec_only_multi_block(spec_zm(x, y, b, bw, bh, p)) by {
        lemma_merge_map_only_multi_block(MergeRule::AllZero, x, y, b, bw, bh, p);
    }
    assert(spec_only_multi_block(spec_map_from_quantized_ac(x, y, b, bw, bh, d)));
    let head = spec_head_candidates(x, y, b, bw, bh, d);
    assert(spec_all_multi_block(head));
    let large = spec_large_extra(x, y, b, bw, bh, d);
    assert(spec_all_multi_block(large));
    let low = spec_small_extra_low(x, y, b, bw, bh, d);
    assert(spec_all_multi_block(low));
    let mid2 = seq![spec_le(x, y, b, bw, bh, spec_priority_a(), 4), spec_le(x, y, b, bw, bh, spec_priority_b(), 5)];
    assert(spec_all_multi_block(mid2));
    let mid = spec_small_extra_mid(x, y, b, bw, bh, d);
    assert(spec_all_multi_block(mid)) by {
        let empty = Seq::<Seq<u8>>::empty();
        assert(spec_all_multi_block(empty));
        lemma_all_multi_concat(empty, mid2);
        lemma_all_multi_concat(empty + mid2, empty);
        assert(spec_f32_at_least(d, DISTANCE_2_5) ==> mid == empty + mid2 + empty);
    }
    let high = spec_small_extra_high(x, y, b, bw, bh, d);
    assert(spec_all_multi_block(high)) by {
        let empty = Seq::<Seq<u8>>::empty();
        let h2 = seq![spec_le(x, y, b, bw, bh, spec_priority_b(), 8)];
        assert(spec_all_multi_block(empty));
        assert(spec_all_multi_block(h2));
        lemma_all_multi_concat(empty, h2);
        lemma_all_multi_concat(empty + h2, empty);
        assert(spec_f32_at_least(d, DISTANCE_3_0) ==> high == empty + h2 + empty);
    }
    lemma_all_multi_concat(head, large);
    lemma_all_multi_concat(head, low);
    lemma_all_multi_concat(head + low, mid);
    lemma_all_multi_concat(head + low + mid, high);
    assert(spec_all_multi_block(seq![spec_dct8_map(bw * bh)]));
    assert(spec_all_multi_block(list));
    lemma_dedup_props(list);
    assert forall|k: int| 0 <= k < c.len() implies spec_only_multi_block(#[trigger] c[k]) by {
        let j = choose|j: int| 0 <= j < list.len() && list[j] == c[k];
        assert(spec_only_multi_block(list[j]));
    }
}

} // verus!

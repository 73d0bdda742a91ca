use vstd::prelude::*;
use vstd::set_lib::{lemma_int_range, lemma_len_subset, lemma_map_size, set_int_range};
use crate::transform::{
    spec_covered_x, spec_covered_y, spec_entry_id, spec_is_first_block, spec_type_of_id,
    AFV0_TRANSFORM_ID, AFV1_TRANSFORM_ID, AFV2_TRANSFORM_ID, AFV3_TRANSFORM_ID,
    DCT2X2_TRANSFORM_ID, DCT4X4_TRANSFORM_ID, DCT4X8_TRANSFORM_ID, DCT8X4_TRANSFORM_ID,
    DCT8_TRANSFORM_ID, IDENTITY_TRANSFORM_ID,
};
use crate::transform_map::{build_default_transform_map, spec_well_formed_map};
use crate::merge_map::spec_one_block_entries;

verus! {

// The encoder's distance is a non-negative `f32`; the library receives it as
// its IEEE-754 bit pattern (`f32::to_bits`) and compares it with the
// thresholds below, themselves bit patterns of positive finite `f32` values.
// For such thresholds the comparisons here agree with the `f32` comparisons
// `<` and `>=` on every input, NaN and negative values included.
/// Bit pattern of the `f32` value 1.5.
pub const DISTANCE_1_5: u32 = 0x3fc0_0000;

/// Bit pattern of the `f32` value nearest to 1.8.
pub const DISTANCE_1_8: u32 = 0x3fe6_6666;

/// Bit pattern of the `f32` value 2.0.
pub const DISTANCE_2_0: u32 = 0x4000_0000;

/// Bit pattern of the `f32` value 2.5.
pub const DISTANCE_2_5: u32 = 0x4020_0000;

/// Bit pattern of the `f32` value 3.0.
pub const DISTANCE_3_0: u32 = 0x4040_0000;

/// `bits` is the pattern of a NaN: all exponent bits set and a non-zero mantissa.
pub open spec fn spec_f32_is_nan(bits: u32) -> bool {
    bits % 0x8000_0000 > 0x7f80_0000
}

/// `bits` has its sign bit set (a negative value or negative zero).
pub open spec fn spec_f32_is_negative(bits: u32) -> bool {
    bits >= 0x8000_0000
}

/// The `f32` with pattern `bits` is `>=` the positive finite `f32` with pattern `t`.
pub open spec fn spec_f32_at_least(bits: u32, t: u32) -> bool {
    !spec_f32_is_nan(bits) && !spec_f32_is_negative(bits) && bits >= t
}

/// The `f32` with pattern `bits` is `<` the positive finite `f32` with pattern `t`.
pub open spec fn spec_f32_below(bits: u32, t: u32) -> bool {
    !spec_f32_is_nan(bits) && (spec_f32_is_negative(bits) || bits < t)
}

/// `f32::max` of the value with pattern `bits` and the positive finite value
/// with pattern `t`: `t` unless the first value is at least `t`.
pub open spec fn spec_f32_max(bits: u32, t: u32) -> u32 {
    if spec_f32_at_least(bits, t) {
        bits
    } else {
        t
    }
}

/// Whether the `f32` with pattern `bits` is at least the one with pattern `t`
/// (a positive finite threshold).
pub fn f32_at_least(bits: u32, t: u32) -> (r: bool)
    ensures
        r == spec_f32_at_least(bits, t),
{
    bits % 0x8000_0000 <= 0x7f80_0000 && bits < 0x8000_0000 && bits >= t
}

/// Whether the `f32` with pattern `bits` is below the one with pattern `t`
/// (a positive finite threshold).
pub fn f32_below(bits: u32, t: u32) -> (r: bool)
    ensures
        r == spec_f32_below(bits, t),
{
    bits % 0x8000_0000 <= 0x7f80_0000 && (bits >= 0x8000_0000 || bits < t)
}

pub open spec fn spec_abs(v: int) -> int {
    if v < 0 {
        -v
    } else {
        v
    }
}

/// Coefficient `i` of the three channels can be read without overflow in
/// `i32`: no value is `i32::MIN`, and the X and B magnitudes sum within `i32`.
pub open spec fn spec_coeff_fits(ac_x: Seq<i32>, ac_y: Seq<i32>, ac_b: Seq<i32>, i: int) -> bool {
    &&& ac_x[i] != i32::MIN
    &&& ac_y[i] != i32::MIN
    &&& ac_b[i] != i32::MIN
    &&& spec_abs(ac_x[i] as int) + spec_abs(ac_b[i] as int) <= i32::MAX
}

/// Weighted magnitude of coefficient `i`: twice the Y magnitude plus half the
/// summed X and B magnitudes, rounded down.
pub open spec fn spec_mag(ac_x: Seq<i32>, ac_y: Seq<i32>, ac_b: Seq<i32>, i: int) -> int {
    2 * spec_abs(ac_y[i] as int) + (spec_abs(ac_x[i] as int) + spec_abs(ac_b[i] as int)) / 2
}

/// Parts of an 8x8 block's AC coefficients, by column `u` and row `v` of position `k`.
#[derive(Clone, Copy, PartialEq, Eq, Debug, Structural)]
pub enum CoeffBand {
    /// Every AC coefficient.
    All,
    /// `u < 2` and `v < 2`.
    Low2,
    /// `u < 3` and `v < 3`.
    Low3,
    /// `u >= 2` or `v >= 2`.
    High2,
    /// `u >= 3` and `v >= 3`.
    High3,
    /// `u >= 3` or `v >= 3`.
    Outer3,
}

pub open spec fn spec_in_band(band: CoeffBand, k: int) -> bool {
    let u = k % 8;
    let v = k / 8;
    match band {
        CoeffBand::All => true,
        CoeffBand::Low2 => u < 2 && v < 2,
        CoeffBand::Low3 => u < 3 && v < 3,
        CoeffBand::High2 => u >= 2 || v >= 2,
        CoeffBand::High3 => u >= 3 && v >= 3,
        CoeffBand::Outer3 => u >= 3 || v >= 3,
    }
}

/// Sum of the weighted magnitudes of positions `1..n` of the block at `base`
/// that lie in `band`.
pub open spec fn spec_band_sum(
    ac_x: Seq<i32>,
    ac_y: Seq<i32>,
    ac_b: Seq<i32>,
    base: int,
    band: CoeffBand,
    n: int,
) -> int
    decreases n,
{
    if n <= 1 {
        0
    } else {
        spec_band_sum(ac_x, ac_y, ac_b, base, band, n - 1) + if spec_in_band(band, n - 1) {
            spec_mag(ac_x, ac_y, ac_b, base + n - 1)
        } else {
            0
        }
    }
}

/// Largest weighted magnitude among positions `1..n` of the block at `base` (0 if none).
pub open spec fn spec_peak(ac_x: Seq<i32>, ac_y: Seq<i32>, ac_b: Seq<i32>, base: int, n: int) -> int
    decreases n,
{
    if n <= 1 {
        0
    } else {
        let p = spec_peak(ac_x, ac_y, ac_b, base, n - 1);
        let m = spec_mag(ac_x, ac_y, ac_b, base + n - 1);
        if m > p {
            m
        } else {
            p
        }
    }
}

/// All AC positions of block `blk` can be read without overflow.
pub open spec fn spec_block_fits(ac_x: Seq<i32>, ac_y: Seq<i32>, ac_b: Seq<i32>, blk: int) -> bool {
    forall|k: int| 1 <= k < 64 ==> #[trigger] spec_coeff_fits(ac_x, ac_y, ac_b, blk * 64 + k)
}

/// The band sums and the peak of one block.
pub struct BlockFeatures {
    pub total: i64,
    pub low2: i64,
    pub low3: i64,
    pub high2: i64,
    pub high3: i64,
    pub outer3: i64,
    pub peak: i64,
}

pub open spec fn spec_features_match(
    f: BlockFeatures,
    ac_x: Seq<i32>,
    ac_y: Seq<i32>,
    ac_b: Seq<i32>,
    blk: int,
) -> bool {
    let base = blk * 64;
    &&& f.total == spec_band_sum(ac_x, ac_y, ac_b, base, CoeffBand::All, 64)
    &&& f.low2 == spec_band_sum(ac_x, ac_y, ac_b, base, CoeffBand::Low2, 64)
    &&& f.low3 == spec_band_sum(ac_x, ac_y, ac_b, base, CoeffBand::Low3, 64)
    &&& f.high2 == spec_band_sum(ac_x, ac_y, ac_b, base, CoeffBand::High2, 64)
    &&& f.high3 == spec_band_sum(ac_x, ac_y, ac_b, base, CoeffBand::High3, 64)
    &&& f.outer3 == spec_band_sum(ac_x, ac_y, ac_b, base, CoeffBand::Outer3, 64)
    &&& f.peak == spec_peak(ac_x, ac_y, ac_b, base, 64)
}

fn abs_i32(v: i32) -> (r: i64)
    ensures
        r == spec_abs(v as int),
{
    if v < 0 {
        -(v as i64)
    } else {
        v as i64
    }
}

fn coeff_mag(ac_x: &[i32], ac_y: &[i32], ac_b: &[i32], i: usize) -> (r: i64)
    requires
        i < ac_x@.len(),
        i < ac_y@.len(),
        i < ac_b@.len(),
        spec_coeff_fits(ac_x@, ac_y@, ac_b@, i as int),
    ensures
        r == spec_mag(ac_x@, ac_y@, ac_b@, i as int),
        0 <= r < 0x2_0000_0000,
{
    let y = abs_i32(ac_y[i]);
    let xb = abs_i32(ac_x[i]) + abs_i32(ac_b[i]);
    y * 2 + xb / 2
}

proof fn lemma_band_sum_bounds(
    ac_x: Seq<i32>,
    ac_y: Seq<i32>,
    ac_b: Seq<i32>,
    base: int,
    band: CoeffBand,
    n: int,
)
    requires
        n <= 64,
        forall|k: int| 1 <= k < n ==> 0 <= #[trigger] spec_mag(ac_x, ac_y, ac_b, base + k) < 0x2_0000_0000,
    ensures
        0 <= spec_band_sum(ac_x, ac_y, ac_b, base, band, n) <= 64 * 0x2_0000_0000,
        0 <= spec_peak(ac_x, ac_y, ac_b, base, n) < 0x2_0000_0000,
    decreases n,
{
    if n > 1 {
        lemma_band_sum_bounds(ac_x, ac_y, ac_b, base, band, n - 1);
        assert(0 <= spec_mag(ac_x, ac_y, ac_b, base + (n - 1)) < 0x2_0000_0000);
        assert(spec_band_sum(ac_x, ac_y, ac_b, base, band, n - 1) <= (n - 1) * 0x2_0000_0000) by {
            lemma_band_sum_prefix_bound(ac_x, ac_y, ac_b, base, band, n - 1);
        }
    }
}

proof fn lemma_band_sum_prefix_bound(
    ac_x: Seq<i32>,
    ac_y: Seq<i32>,
    ac_b: Seq<i32>,
    base: int,
    band: CoeffBand,
    n: int,
)
    requires
        n <= 64,
        forall|k: int| 1 <= k < n ==> 0 <= #[trigger] spec_mag(ac_x, ac_y, ac_b, base + k) < 0x2_0000_0000,
    ensures
        0 <= spec_band_sum(ac_x, ac_y, ac_b, base, band, n),
        n >= 1 ==> spec_band_sum(ac_x, ac_y, ac_b, base, band, n) <= (n - 1) * 0x2_0000_0000,
    decreases n,
{
    if n > 1 {
        lemma_band_sum_prefix_bound(ac_x, ac_y, ac_b, base, band, n - 1);
        assert(0 <= spec_mag(ac_x, ac_y, ac_b, base + (n - 1)) < 0x2_0000_0000);
    }
}

fn block_features(ac_x: &[i32], ac_y: &[i32], ac_b: &[i32], blk: usize) -> (f: BlockFeatures)
    requires
        blk * 64 + 64 <= ac_x@.len(),
        blk * 64 + 64 <= ac_y@.len(),
        blk * 64 + 64 <= ac_b@.len(),
        spec_block_fits(ac_x@, ac_y@, ac_b@, blk as int),
    ensures
        spec_features_match(f, ac_x@, ac_y@, ac_b@, blk as int),
        0 <= f.total,
        0 <= f.low2,
        0 <= f.low3,
        0 <= f.high2,
        0 <= f.high3,
        0 <= f.outer3,
        0 <= f.peak,
        f.total <= 64 * 0x2_0000_0000,
        f.low2 <= 64 * 0x2_0000_0000,
        f.low3 <= 64 * 0x2_0000_0000,
        f.high2 <= 64 * 0x2_0000_0000,
        f.high3 <= 64 * 0x2_0000_0000,
        f.outer3 <= 64 * 0x2_0000_0000,
        f.peak < 0x2_0000_0000,
{
    let _len = ac_x.len();
    let base = blk * 64;
    let ghost (sx, sy, sb) = (ac_x@, ac_y@, ac_b@);
    let mut total: i64 = 0;
    let mut low2: i64 = 0;
    let mut low3: i64 = 0;
    let mut high2: i64 = 0;
    let mut high3: i64 = 0;
    let mut outer3: i64 = 0;
    let mut peak: i64 = 0;
    let mut k: usize = 1;
    while k < 64
        invariant
            1 <= k <= 64,
            base == blk * 64,
            base + 64 <= sx.len(),
            base + 64 <= sy.len(),
            base + 64 <= sb.len(),
            sx == ac_x@,
            sy == ac_y@,
            sb == ac_b@,
            spec_block_fits(sx, sy, sb, blk as int),
            forall|j: int| 1 <= j < k ==> 0 <= #[trigger] spec_mag(sx, sy, sb, base + j) < 0x2_0000_0000,
            total == spec_band_sum(sx, sy, sb, base as int, CoeffBand::All, k as int),
            low2 == spec_band_sum(sx, sy, sb, base as int, CoeffBand::Low2, k as int),
            low3 == spec_band_sum(sx, sy, sb, base as int, CoeffBand::Low3, k as int),
            high2 == spec_band_sum(sx, sy, sb, base as int, CoeffBand::High2, k as int),
            high3 == spec_band_sum(sx, sy, sb, base as int, CoeffBand::High3, k as int),
            outer3 == spec_band_sum(sx, sy, sb, base as int, CoeffBand::Outer3, k as int),
            peak == spec_peak(sx, sy, sb, base as int, k as int),
        decreases 64 - k,
    {
        assert(spec_coeff_fits(sx, sy, sb, blk * 64 + k));
        let mag = coeff_mag(ac_x, ac_y, ac_b, base + k);
        proof {
            lemma_band_sum_prefix_bound(sx, sy, sb, base as int, CoeffBand::All, k as int);
            lemma_band_sum_prefix_bound(sx, sy, sb, base as int, CoeffBand::Low2, k as int);
            lemma_band_sum_prefix_bound(sx, sy, sb, base as int, CoeffBand::Low3, k as int);
            lemma_band_sum_prefix_bound(sx, sy, sb, base as int, CoeffBand::High2, k as int);
            lemma_band_sum_prefix_bound(sx, sy, sb, base as int, CoeffBand::High3, k as int);
            lemma_band_sum_prefix_bound(sx, sy, sb, base as int, CoeffBand::Outer3, k as int);
        }
        let u = k % 8;
        let v = k / 8;
        total = total + mag;
        if mag > peak {
            peak = mag;
        }
        if u < 2 && v < 2 {
            low2 = low2 + mag;
        }
        if u < 3 && v < 3 {
            low3 = low3 + mag;
        }
        if u >= 2 || v >= 2 {
            high2 = high2 + mag;
        }
        if u >= 3 && v >= 3 {
            high3 = high3 + mag;
        }
        if u >= 3 || v >= 3 {
            outer3 = outer3 + mag;
        }
        k = k + 1;
    }
    proof {
        lemma_band_sum_bounds(sx, sy, sb, base as int, CoeffBand::All, 64);
        lemma_band_sum_bounds(sx, sy, sb, base as int, CoeffBand::Low2, 64);
        lemma_band_sum_bounds(sx, sy, sb, base as int, CoeffBand::Low3, 64);
        lemma_band_sum_bounds(sx, sy, sb, base as int, CoeffBand::High2, 64);
        lemma_band_sum_bounds(sx, sy, sb, base as int, CoeffBand::High3, 64);
        lemma_band_sum_bounds(sx, sy, sb, base as int, CoeffBand::Outer3, 64);
    }
    BlockFeatures { total, low2, low3, high2, high3, outer3, peak }
}


/// Magnitude of channel value `ac[i]`.
pub open spec fn spec_abs_at(ac: Seq<i32>, i: int) -> int {
    spec_abs(ac[i] as int)
}

/// Summed Y magnitudes of the first three horizontal AC positions (1, 2, 3).
pub open spec fn spec_h3(ac_y: Seq<i32>, base: int) -> int {
    spec_abs_at(ac_y, base + 1) + spec_abs_at(ac_y, base + 2) + spec_abs_at(ac_y, base + 3)
}

/// Summed Y magnitudes of the first three vertical AC positions (8, 16, 24).
pub open spec fn spec_v3(ac_y: Seq<i32>, base: int) -> int {
    spec_abs_at(ac_y, base + 8) + spec_abs_at(ac_y, base + 16) + spec_abs_at(ac_y, base + 24)
}

/// `spec_h3` plus the X and B magnitudes at position 1.
pub open spec fn spec_h5(ac_x: Seq<i32>, ac_y: Seq<i32>, ac_b: Seq<i32>, base: int) -> int {
    spec_h3(ac_y, base) + spec_abs_at(ac_x, base + 1) + spec_abs_at(ac_b, base + 1)
}

/// `spec_v3` plus the X and B magnitudes at position 8.
pub open spec fn spec_v5(ac_x: Seq<i32>, ac_y: Seq<i32>, ac_b: Seq<i32>, base: int) -> int {
    spec_v3(ac_y, base) + spec_abs_at(ac_x, base + 8) + spec_abs_at(ac_b, base + 8)
}

/// Signed Y + X - B at position `k` of the block at `base`.
pub open spec fn spec_sign_sum(ac_x: Seq<i32>, ac_y: Seq<i32>, ac_b: Seq<i32>, base: int, k: int) -> int {
    ac_y[base + k] as int + ac_x[base + k] as int - ac_b[base + k] as int
}

/// The AFV variant whose corner matches the signs of the horizontal and vertical sums.
pub open spec fn spec_afv_id(sx_negative: bool, sy_negative: bool) -> u8 {
    if !sx_negative && !sy_negative {
        AFV0_TRANSFORM_ID
    } else if sx_negative && !sy_negative {
        AFV1_TRANSFORM_ID
    } else if !sx_negative && sy_negative {
        AFV2_TRANSFORM_ID
    } else {
        AFV3_TRANSFORM_ID
    }
}

pub open spec fn spec_max0(v: int) -> int {
    if v > 0 {
        v
    } else {
        0
    }
}

/// The four heuristics that place small special transforms.
#[derive(Clone, Copy, PartialEq, Eq, Debug, Structural)]
pub enum SpecialKind {
    /// AFV transforms for blocks with strong, direction-skewed high frequencies.
    Afv,
    /// DCT4x8 / DCT8x4 for blocks with a dominant direction.
    Directional,
    /// DCT2x2, DCT4x4 or IDENTITY for smooth or sparse blocks.
    Compact,
    /// The best of the three above for each block.
    Mixed,
}

pub open spec fn spec_band(ac_x: Seq<i32>, ac_y: Seq<i32>, ac_b: Seq<i32>, blk: int, band: CoeffBand) -> int {
    spec_band_sum(ac_x, ac_y, ac_b, blk * 64, band, 64)
}

/// AFV choice for block `blk`: its score and transform id, if it scores positively.
pub open spec fn spec_afv_choice(ac_x: Seq<i32>, ac_y: Seq<i32>, ac_b: Seq<i32>, blk: int) -> Option<(int, u8)> {
    let base = blk * 64;
    let total = spec_band(ac_x, ac_y, ac_b, blk, CoeffBand::All);
    let low = spec_band(ac_x, ac_y, ac_b, blk, CoeffBand::Low3);
    let high = spec_band(ac_x, ac_y, ac_b, blk, CoeffBand::High3);
    if total < 40 || high * 2 < low {
        None
    } else {
        let anis = spec_abs(spec_h3(ac_y, base) - spec_v3(ac_y, base));
        if anis < 4 {
            None
        } else {
            let id = spec_afv_id(
                spec_sign_sum(ac_x, ac_y, ac_b, base, 1) < 0,
                spec_sign_sum(ac_x, ac_y, ac_b, base, 8) < 0,
            );
            let score = high + anis * 3 - low;
            if score > 0 {
                Some((score, id))
            } else {
                None
            }
        }
    }
}

/// Directional choice for block `blk`.
pub open spec fn spec_directional_choice(
    ac_x: Seq<i32>,
    ac_y: Seq<i32>,
    ac_b: Seq<i32>,
    blk: int,
) -> Option<(int, u8)> {
    let base = blk * 64;
    let total = spec_band(ac_x, ac_y, ac_b, blk, CoeffBand::All);
    let high = spec_band(ac_x, ac_y, ac_b, blk, CoeffBand::High2);
    if total < 48 || high * 3 < total {
        None
    } else {
        let horiz = spec_h5(ac_x, ac_y, ac_b, base);
        let vert = spec_v5(ac_x, ac_y, ac_b, base);
        let anis = spec_abs(horiz - vert);
        if anis < 10 {
            None
        } else {
            let id = if horiz >= vert {
                DCT4X8_TRANSFORM_ID
            } else {
                DCT8X4_TRANSFORM_ID
            };
            let score = anis * 4 + high - total / 2;
            if score > 0 {
                Some((score, id))
            } else {
                None
            }
        }
    }
}

/// Compact choice for block `blk`.
pub open spec fn spec_compact_choice(ac_x: Seq<i32>, ac_y: Seq<i32>, ac_b: Seq<i32>, blk: int) -> Option<(int, u8)> {
    let total = spec_band(ac_x, ac_y, ac_b, blk, CoeffBand::All);
    let low = spec_band(ac_x, ac_y, ac_b, blk, CoeffBand::Low2);
    let high = spec_band(ac_x, ac_y, ac_b, blk, CoeffBand::Outer3);
    let peak = spec_peak(ac_x, ac_y, ac_b, blk * 64, 64);
    if total < 4 {
        None
    } else {
        let c: Option<(int, u8)> = if total <= 28 && high <= 6 {
            Some((40 - total + spec_max0(low - high), DCT2X2_TRANSFORM_ID))
        } else if total <= 64 && high * 3 <= low * 2 {
            Some((80 - total + spec_max0(low - high / 2), DCT4X4_TRANSFORM_ID))
        } else if peak >= 36 && peak * 3 > total * 2 && total <= 160 {
            Some((peak * 2 - total, IDENTITY_TRANSFORM_ID))
        } else {
            None
        };
        match c {
            Some(p) => if p.0 > 0 {
                c
            } else {
                None
            },
            None => None,
        }
    }
}

/// Mixed choice for block `blk`: the compact, directional and AFV candidates
/// are tried in that order, each replacing the best so far only with a
/// strictly higher score (starting from DCT8 at score 0).
pub open spec fn spec_mixed_choice(ac_x: Seq<i32>, ac_y: Seq<i32>, ac_b: Seq<i32>, blk: int) -> Option<(int, u8)> {
    let base = blk * 64;
    let total = spec_band(ac_x, ac_y, ac_b, blk, CoeffBand::All);
    let low2 = spec_band(ac_x, ac_y, ac_b, blk, CoeffBand::Low2);
    let low3 = spec_band(ac_x, ac_y, ac_b, blk, CoeffBand::Low3);
    let high3 = spec_band(ac_x, ac_y, ac_b, blk, CoeffBand::High3);
    let high2 = spec_band(ac_x, ac_y, ac_b, blk, CoeffBand::High2);
    let peak = spec_peak(ac_x, ac_y, ac_b, base, 64);
    if total < 4 {
        None
    } else {
        let start: (int, u8) = (0, DCT8_TRANSFORM_ID);
        let c1: (int, u8) = if total <= 28 && high3 <= 6 {
            let s = 40 - total + spec_max0(low2 - high3);
            if s > 0 { (s, DCT2X2_TRANSFORM_ID) } else { start }
        } else if total <= 64 && high3 * 3 <= low2 * 2 {
            let s = 80 - total + spec_max0(low2 - high3 / 2);
            if s > 0 { (s, DCT4X4_TRANSFORM_ID) } else { start }
        } else if peak >= 36 && peak * 3 > total * 2 && total <= 160 {
            let s = peak * 2 - total;
            if s > 0 { (s, IDENTITY_TRANSFORM_ID) } else { start }
        } else {
            start
        };
        let h5 = spec_h5(ac_x, ac_y, ac_b, base);
        let v5 = spec_v5(ac_x, ac_y, ac_b, base);
        let anis5 = spec_abs(h5 - v5);
        let c2: (int, u8) = if total >= 48 && high2 * 3 >= total && anis5 >= 10 {
            let id = if h5 >= v5 {
                DCT4X8_TRANSFORM_ID
            } else {
                DCT8X4_TRANSFORM_ID
            };
            let s = anis5 * 4 + high2 - total / 2;
            if s > c1.0 { (s, id) } else { c1 }
        } else {
            c1
        };
        let anis3 = spec_abs(spec_h3(ac_y, base) - spec_v3(ac_y, base));
        let c3: (int, u8) = if total >= 40 && high3 * 2 >= low3 && anis3 >= 4 {
            let id = spec_afv_id(
                spec_sign_sum(ac_x, ac_y, ac_b, base, 1) < 0,
                spec_sign_sum(ac_x, ac_y, ac_b, base, 8) < 0,
            );
            let s = high3 + anis3 * 3 - low3;
            if s > c2.0 { (s, id) } else { c2 }
        } else {
            c2
        };
        if c3.0 > 0 && c3.1 != DCT8_TRANSFORM_ID {
            Some(c3)
        } else {
            None
        }
    }
}

pub open spec fn spec_special_choice(
    kind: SpecialKind,
    ac_x: Seq<i32>,
    ac_y: Seq<i32>,
    ac_b: Seq<i32>,
    blk: int,
) -> Option<(int, u8)> {
    match kind {
        SpecialKind::Afv => spec_afv_choice(ac_x, ac_y, ac_b, blk),
        SpecialKind::Directional => spec_directional_choice(ac_x, ac_y, ac_b, blk),
        SpecialKind::Compact => spec_compact_choice(ac_x, ac_y, ac_b, blk),
        SpecialKind::Mixed => spec_mixed_choice(ac_x, ac_y, ac_b, blk),
    }
}

/// The sums of three (or five) magnitudes at the first horizontal and
/// vertical positions stay within `i32`.
pub open spec fn spec_dir_sums_fit(ac_x: Seq<i32>, ac_y: Seq<i32>, ac_b: Seq<i32>, base: int, wide: bool) -> bool {
    if wide {
        spec_h5(ac_x, ac_y, ac_b, base) <= i32::MAX && spec_v5(ac_x, ac_y, ac_b, base) <= i32::MAX
    } else {
        spec_h3(ac_y, base) <= i32::MAX && spec_v3(ac_y, base) <= i32::MAX
    }
}

/// The signed sums Y + X - B at positions 1 and 8 stay within `i32` at every step.
pub open spec fn spec_sign_sums_fit(ac_x: Seq<i32>, ac_y: Seq<i32>, ac_b: Seq<i32>, base: int) -> bool {
    &&& i32::MIN <= ac_y[base + 1] as int + ac_x[base + 1] as int <= i32::MAX
    &&& i32::MIN <= spec_sign_sum(ac_x, ac_y, ac_b, base, 1) <= i32::MAX
    &&& i32::MIN <= ac_y[base + 8] as int + ac_x[base + 8] as int <= i32::MAX
    &&& i32::MIN <= spec_sign_sum(ac_x, ac_y, ac_b, base, 8) <= i32::MAX
}

/// Block `blk` is read by the heuristic without `i32` overflow: the
/// magnitudes of all its AC positions, and the direction and sign sums
/// wherever the heuristic gets to compute them.
pub open spec fn spec_special_block_ok(
    kind: SpecialKind,
    ac_x: Seq<i32>,
    ac_y: Seq<i32>,
    ac_b: Seq<i32>,
    blk: int,
) -> bool {
    let base = blk * 64;
    let total = spec_band(ac_x, ac_y, ac_b, blk, CoeffBand::All);
    let low3 = spec_band(ac_x, ac_y, ac_b, blk, CoeffBand::Low3);
    let high3 = spec_band(ac_x, ac_y, ac_b, blk, CoeffBand::High3);
    let high2 = spec_band(ac_x, ac_y, ac_b, blk, CoeffBand::High2);
    let anis3 = spec_abs(spec_h3(ac_y, base) - spec_v3(ac_y, base));
    spec_block_fits(ac_x, ac_y, ac_b, blk) && match kind {
        SpecialKind::Afv => !(total < 40 || high3 * 2 < low3) ==> (spec_dir_sums_fit(
            ac_x,
            ac_y,
            ac_b,
            base,
            false,
        ) && (anis3 >= 4 ==> spec_sign_sums_fit(ac_x, ac_y, ac_b, base))),
        SpecialKind::Directional => !(total < 48 || high2 * 3 < total) ==> spec_dir_sums_fit(
            ac_x,
            ac_y,
            ac_b,
            base,
            true,
        ),
        SpecialKind::Compact => true,
        SpecialKind::Mixed => total >= 4 ==> (spec_dir_sums_fit(ac_x, ac_y, ac_b, base, true) && (
        total >= 40 && high3 * 2 >= low3 && anis3 >= 4 ==> spec_sign_sums_fit(
            ac_x,
            ac_y,
            ac_b,
            base,
        ))),
    }
}

pub open spec fn spec_opt_view(o: Option<(i64, u8)>) -> Option<(int, u8)> {
    match o {
        Some(p) => Some((p.0 as int, p.1)),
        None => None,
    }
}

fn afv_id(sx_negative: bool, sy_negative: bool) -> (r: u8)
    ensures
        r == spec_afv_id(sx_negative, sy_negative),
{
    if !sx_negative && !sy_negative {
        AFV0_TRANSFORM_ID
    } else if sx_negative && !sy_negative {
        AFV1_TRANSFORM_ID
    } else if !sx_negative && sy_negative {
        AFV2_TRANSFORM_ID
    } else {
        AFV3_TRANSFORM_ID
    }
}

fn max0(v: i64) -> (r: i64)
    ensures
        r == spec_max0(v as int),
{
    if v > 0 {
        v
    } else {
        0
    }
}

/// The direction and sign sums of the block at `base`.
struct DirSums {
    h3: i64,
    v3: i64,
    h5: i64,
    v5: i64,
    sx: i64,
    sy: i64,
}

fn dir_sums(ac_x: &[i32], ac_y: &[i32], ac_b: &[i32], base: usize) -> (d: DirSums)
    requires
        base + 64 <= ac_x@.len(),
        base + 64 <= ac_y@.len(),
        base + 64 <= ac_b@.len(),
    ensures
        d.h3 == spec_h3(ac_y@, base as int),
        d.v3 == spec_v3(ac_y@, base as int),
        d.h5 == spec_h5(ac_x@, ac_y@, ac_b@, base as int),
        d.v5 == spec_v5(ac_x@, ac_y@, ac_b@, base as int),
        d.sx == spec_sign_sum(ac_x@, ac_y@, ac_b@, base as int, 1),
        d.sy == spec_sign_sum(ac_x@, ac_y@, ac_b@, base as int, 8),
        0 <= d.h3 <= d.h5 <= 5 * 0x8000_0000,
        0 <= d.v3 <= d.v5 <= 5 * 0x8000_0000,
{
    let _len = ac_y.len();
    let h3 = abs_i32(ac_y[base + 1]) + abs_i32(ac_y[base + 2]) + abs_i32(ac_y[base + 3]);
    let v3 = abs_i32(ac_y[base + 8]) + abs_i32(ac_y[base + 16]) + abs_i32(ac_y[base + 24]);
    let h5 = h3 + abs_i32(ac_x[base + 1]) + abs_i32(ac_b[base + 1]);
    let v5 = v3 + abs_i32(ac_x[base + 8]) + abs_i32(ac_b[base + 8]);
    let sx = ac_y[base + 1] as i64 + ac_x[base + 1] as i64 - ac_b[base + 1] as i64;
    let sy = ac_y[base + 8] as i64 + ac_x[base + 8] as i64 - ac_b[base + 8] as i64;
    DirSums { h3, v3, h5, v5, sx, sy }
}

fn abs_i64(v: i64) -> (r: i64)
    requires
        v > i64::MIN,
    ensures
        r == spec_abs(v as int),
{
    if v < 0 {
        -v
    } else {
        v
    }
}

/// The heuristic's choice for block `blk`: its score and transform id, or
/// `None` where the block keeps DCT8.
fn special_choice(kind: SpecialKind, ac_x: &[i32], ac_y: &[i32], ac_b: &[i32], blk: usize) -> (r: Option<(i64, u8)>)
    requires
        blk * 64 + 64 <= ac_x@.len(),
        blk * 64 + 64 <= ac_y@.len(),
        blk * 64 + 64 <= ac_b@.len(),
        spec_block_fits(ac_x@, ac_y@, ac_b@, blk as int),
    ensures
        spec_opt_view(r) == spec_special_choice(kind, ac_x@, ac_y@, ac_b@, blk as int),
        r matches Some(p) ==> p.1 < 18,
{
    let _len = ac_x.len();
    let f = block_features(ac_x, ac_y, ac_b, blk);
    let d = dir_sums(ac_x, ac_y, ac_b, blk * 64);
    match kind {
        SpecialKind::Afv => {
            if f.total < 40 || f.high3 * 2 < f.low3 {
                return None;
            }
            let anis = abs_i64(d.h3 - d.v3);
            if anis < 4 {
                return None;
            }
            let id = afv_id(d.sx < 0, d.sy < 0);
            let score = f.high3 + anis * 3 - f.low3;
            if score > 0 {
                Some((score, id))
            } else {
                None
            }
        },
        SpecialKind::Directional => {
            if f.total < 48 || f.high2 * 3 < f.total {
                return None;
            }
            let anis = abs_i64(d.h5 - d.v5);
            if anis < 10 {
                return None;
            }
            let id = if d.h5 >= d.v5 {
                DCT4X8_TRANSFORM_ID
            } else {
                DCT8X4_TRANSFORM_ID
            };
            let score = anis * 4 + f.high2 - f.total / 2;
            if score > 0 {
                Some((score, id))
            } else {
                None
            }
        },
        SpecialKind::Compact => {
            let total = f.total;
            let low = f.low2;
            let high = f.outer3;
            let peak = f.peak;
            if total < 4 {
                return None;
            }
            let (score, id) = if total <= 28 && high <= 6 {
                (40 - total + max0(low - high), DCT2X2_TRANSFORM_ID)
            } else if total <= 64 && high * 3 <= low * 2 {
                (80 - total + max0(low - high / 2), DCT4X4_TRANSFORM_ID)
            } else if peak >= 36 && peak * 3 > total * 2 && total <= 160 {
                (peak * 2 - total, IDENTITY_TRANSFORM_ID)
            } else {
                return None;
            };
            if score > 0 {
                Some((score, id))
            } else {
                None
            }
        },
        SpecialKind::Mixed => {
            let total = f.total;
            if total < 4 {
                return None;
            }
            let mut best_score: i64 = 0;
            let mut best: u8 = DCT8_TRANSFORM_ID;
            if total <= 28 && f.high3 <= 6 {
                let s = 40 - total + max0(f.low2 - f.high3);
                if s > best_score {
                    best_score = s;
                    best = DCT2X2_TRANSFORM_ID;
                }
            } else if total <= 64 && f.high3 * 3 <= f.low2 * 2 {
                let s = 80 - total + max0(f.low2 - f.high3 / 2);
                if s > best_score {
                    best_score = s;
                    best = DCT4X4_TRANSFORM_ID;
                }
            } else if f.peak >= 36 && f.peak * 3 > total * 2 && total <= 160 {
                let s = f.peak * 2 - total;
                if s > best_score {
                    best_score = s;
                    best = IDENTITY_TRANSFORM_ID;
                }
            }
            let anis5 = abs_i64(d.h5 - d.v5);
            if total >= 48 && f.high2 * 3 >= total && anis5 >= 10 {
                let id = if d.h5 >= d.v5 {
                    DCT4X8_TRANSFORM_ID
                } else {
                    DCT8X4_TRANSFORM_ID
                };
                let s = anis5 * 4 + f.high2 - total / 2;
                if s > best_score {
                    best_score = s;
                    best = id;
                }
            }
            let anis3 = abs_i64(d.h3 - d.v3);
            if total >= 40 && f.high3 * 2 >= f.low3 && anis3 >= 4 {
                let id = afv_id(d.sx < 0, d.sy < 0);
                let s = f.high3 + anis3 * 3 - f.low3;
                if s > best_score {
                    best_score = s;
                    best = id;
                }
            }
            if best_score > 0 && best != DCT8_TRANSFORM_ID {
                Some((best_score, best))
            } else {
                None
            }
        },
    }
}


/// Block `a` comes before block `b` in the order in which scored blocks are
/// taken: higher score first, and among equal scores the lower block index.
pub open spec fn spec_ranked_before(c: Seq<Option<(int, u8)>>, a: int, b: int) -> bool {
    match (c[a], c[b]) {
        (Some(pa), Some(pb)) => pa.0 > pb.0 || (pa.0 == pb.0 && a < b),
        _ => false,
    }
}

/// Number of blocks among `0..n` that come before block `b`.
pub open spec fn spec_rank(c: Seq<Option<(int, u8)>>, b: int, n: int) -> nat
    decreases n,
{
    if n <= 0 {
        0
    } else {
        spec_rank(c, b, n - 1) + if spec_ranked_before(c, n - 1, b) {
            1nat
        } else {
            0nat
        }
    }
}

/// The transform map that gives each scored block among the first `limit`
/// in that order its chosen transform, and every other block DCT8.
pub open spec fn spec_select_map(c: Seq<Option<(int, u8)>>, limit: int) -> Seq<u8> {
    Seq::new(
        c.len(),
        |b: int|
            match c[b] {
                Some(p) => if spec_rank(c, b, c.len() as int) < limit {
                    (128 + p.1) as u8
                } else {
                    0x80u8
                },
                None => 0x80u8,
            },
    )
}

/// The choices of the heuristic for blocks `0..n`.
pub open spec fn spec_special_choices(
    kind: SpecialKind,
    ac_x: Seq<i32>,
    ac_y: Seq<i32>,
    ac_b: Seq<i32>,
    n: int,
) -> Seq<Option<(int, u8)>> {
    Seq::new(n as nat, |b: int| spec_special_choice(kind, ac_x, ac_y, ac_b, b))
}

pub open spec fn spec_clamp(v: int, lo: int, hi: int) -> int {
    if v < lo {
        lo
    } else if v > hi {
        hi
    } else {
        v
    }
}

/// How many blocks of `n` the heuristic may change at most.
pub open spec fn spec_special_limit(kind: SpecialKind, n: int) -> int {
    match kind {
        SpecialKind::Afv => spec_clamp(n / 64, 1, 64),
        SpecialKind::Directional => spec_clamp(n / 96, 1, 48),
        SpecialKind::Compact => spec_clamp(n / 128, 1, 32),
        SpecialKind::Mixed => spec_clamp(n / 16, 1, 64),
    }
}

/// The map the heuristic builds for `n` blocks.
pub open spec fn spec_special_map(
    kind: SpecialKind,
    ac_x: Seq<i32>,
    ac_y: Seq<i32>,
    ac_b: Seq<i32>,
    n: int,
) -> Seq<u8> {
    spec_select_map(spec_special_choices(kind, ac_x, ac_y, ac_b, n), spec_special_limit(kind, n))
}

/// What the heuristic reads for `n` blocks is there and can be read without overflow.
pub open spec fn spec_special_inputs_ok(
    kind: SpecialKind,
    ac_x: Seq<i32>,
    ac_y: Seq<i32>,
    ac_b: Seq<i32>,
    n: int,
) -> bool {
    &&& ac_x.len() >= n * 64
    &&& ac_y.len() >= n * 64
    &&& ac_b.len() >= n * 64
    &&& forall|blk: int| 0 <= blk < n ==> #[trigger] spec_special_block_ok(kind, ac_x, ac_y, ac_b, blk)
}

/// The transform map of `n` blocks that are all DCT8.
pub open spec fn spec_dct8_map(n: int) -> Seq<u8> {
    Seq::new(n as nat, |i: int| 0x80u8)
}

pub open spec fn spec_choices_view(v: Seq<Option<(i64, u8)>>) -> Seq<Option<(int, u8)>> {
    v.map_values(|o: Option<(i64, u8)>| spec_opt_view(o))
}

fn ranked_before(c: &Vec<Option<(i64, u8)>>, a: usize, b: usize) -> (r: bool)
    requires
        a < c@.len(),
        b < c@.len(),
    ensures
        r == spec_ranked_before(spec_choices_view(c@), a as int, b as int),
{
    match (c[a], c[b]) {
        (Some(pa), Some(pb)) => pa.0 > pb.0 || (pa.0 == pb.0 && a < b),
        _ => false,
    }
}

fn select_top(c: &Vec<Option<(i64, u8)>>, limit: usize) -> (r: Vec<u8>)
    requires
        forall|b: int| 0 <= b < c@.len() ==> (#[trigger] c@[b] matches Some(p) ==> p.1 < 128),
    ensures
        r@ == spec_select_map(spec_choices_view(c@), limit as int),
{
    let ghost cv = spec_choices_view(c@);
    let n = c.len();
    let mut map: Vec<u8> = Vec::new();
    let mut b: usize = 0;
    while b < n
        invariant
            b <= n,
            n == c@.len(),
            cv == spec_choices_view(c@),
            cv.len() == n,
            forall|t: int| 0 <= t < c@.len() ==> (#[trigger] c@[t] matches Some(p) ==> p.1 < 128),
            map@.len() == b,
            forall|t: int| 0 <= t < b ==> #[trigger] map@[t] == spec_select_map(cv, limit as int)[t],
        decreases n - b,
    {
        let entry: u8 = match c[b] {
            None => 0x80,
            Some(p) => {
                let mut count: usize = 0;
                let mut a: usize = 0;
                while a < n
                    invariant
                        a <= n,
                        b < n,
                        n == c@.len(),
                        cv == spec_choices_view(c@),
                        count == spec_rank(cv, b as int, a as int),
                        count <= a,
                    decreases n - a,
                {
                    if ranked_before(c, a, b) {
                        count = count + 1;
                    }
                    a = a + 1;
                }
                if count < limit {
                    0x80 + p.1
                } else {
                    0x80
                }
            },
        };
        map.push(entry);
        b = b + 1;
    }
    assert(map@ =~= spec_select_map(cv, limit as int));
    map
}

fn special_limit(kind: SpecialKind, n: usize) -> (r: usize)
    ensures
        r == spec_special_limit(kind, n as int),
{
    let (d, hi): (usize, usize) = match kind {
        SpecialKind::Afv => (64, 64),
        SpecialKind::Directional => (96, 48),
        SpecialKind::Compact => (128, 32),
        SpecialKind::Mixed => (16, 64),
    };
    let q = n / d;
    if q < 1 {
        1
    } else if q > hi {
        hi
    } else {
        q
    }
}

fn build_special_map(
    kind: SpecialKind,
    ac_x: &[i32],
    ac_y: &[i32],
    ac_b: &[i32],
    bw: usize,
    bh: usize,
) -> (r: Vec<u8>)
    requires
        bw * bh <= usize::MAX,
        spec_special_inputs_ok(kind, ac_x@, ac_y@, ac_b@, bw * bh),
    ensures
        r@ == spec_special_map(kind, ac_x@, ac_y@, ac_b@, bw * bh),
{
    let _len = ac_x.len();
    let n = bw * bh;
    let ghost want = spec_special_choices(kind, ac_x@, ac_y@, ac_b@, n as int);
    let mut choices: Vec<Option<(i64, u8)>> = Vec::new();
    let mut blk: usize = 0;
    while blk < n
        invariant
            blk <= n,
            n == bw * bh,
            want == spec_special_choices(kind, ac_x@, ac_y@, ac_b@, n as int),
            spec_special_inputs_ok(kind, ac_x@, ac_y@, ac_b@, n as int),
            choices@.len() == blk,
            forall|t: int| 0 <= t < blk ==> #[trigger] spec_opt_view(choices@[t]) == want[t],
            forall|t: int| 0 <= t < blk ==> (#[trigger] choices@[t] matches Some(p) ==> p.1 < 128),
        decreases n - blk,
    {
        assert(spec_special_block_ok(kind, ac_x@, ac_y@, ac_b@, blk as int));
        proof {
            assert(blk * 64 + 64 <= n * 64) by (nonlinear_arith)
                requires blk < n;
        }
        let c = special_choice(kind, ac_x, ac_y, ac_b, blk);
        choices.push(c);
        blk = blk + 1;
    }
    assert(spec_choices_view(choices@) =~= want);
    let limit = special_limit(kind, n);
    select_top(&choices, limit)
}


/// Distance (as an `f32` bit pattern) below which the heuristic keeps DCT8 everywhere.
pub open spec fn spec_special_threshold(kind: SpecialKind) -> u32 {
    match kind {
        SpecialKind::Afv => DISTANCE_2_5,
        _ => DISTANCE_3_0,
    }
}

/// The map of the heuristic at distance `distance_bits` for `n` blocks: all
/// DCT8 below its distance threshold, the heuristic's choices otherwise.
pub open spec fn spec_special_transform_map(
    kind: SpecialKind,
    ac_x: Seq<i32>,
    ac_y: Seq<i32>,
    ac_b: Seq<i32>,
    n: int,
    distance_bits: u32,
) -> Seq<u8> {
    if spec_f32_below(distance_bits, spec_special_threshold(kind)) {
        spec_dct8_map(n)
    } else {
        spec_special_map(kind, ac_x, ac_y, ac_b, n)
    }
}

/// What the heuristic at distance `distance_bits` reads is there and fits.
pub open spec fn spec_special_call_ok(
    kind: SpecialKind,
    ac_x: Seq<i32>,
    ac_y: Seq<i32>,
    ac_b: Seq<i32>,
    n: int,
    distance_bits: u32,
) -> bool {
    !spec_f32_below(distance_bits, spec_special_threshold(kind)) ==> spec_special_inputs_ok(
        kind,
        ac_x,
        ac_y,
        ac_b,
        n,
    )
}

pub(crate) fn dct8_map(bw: usize, bh: usize) -> (r: Vec<u8>)
    requires
        bw * bh <= usize::MAX,
    ensures
        r@ == spec_dct8_map(bw * bh),
{
    let r = build_default_transform_map(bw, bh);
    assert(r@ =~= spec_dct8_map(bw * bh));
    r
}

fn special_transform_map(
    kind: SpecialKind,
    ac_x: &[i32],
    ac_y: &[i32],
    ac_b: &[i32],
    bw: usize,
    bh: usize,
    distance_bits: u32,
) -> (r: Vec<u8>)
    requires
        bw * bh <= usize::MAX,
        spec_special_call_ok(kind, ac_x@, ac_y@, ac_b@, bw * bh, distance_bits),
    ensures
        r@ == spec_special_transform_map(kind, ac_x@, ac_y@, ac_b@, bw * bh, distance_bits),
{
    let threshold = match kind {
        SpecialKind::Afv => DISTANCE_2_5,
        _ => DISTANCE_3_0,
    };
    if f32_below(distance_bits, threshold) {
        return dct8_map(bw, bh);
    }
    build_special_map(kind, ac_x, ac_y, ac_b, bw, bh)
}

/// Marks a few blocks as AFV transforms. Below distance 2.5 (`distance_bits`
/// is the distance's `f32` bit pattern) every block stays DCT8. Otherwise a
/// block is a candidate when its weighted AC magnitude totals at least 40,
/// its high band (both frequencies at least 3) is at least half its low band
/// (both below 3), and its first three horizontal and vertical Y magnitudes
/// differ by at least 4; it is scored high + 3 * difference - low, and the
/// variant follows the signs of Y + X - B at positions 1 and 8. Of the
/// positively scored blocks, the `clamp(n / 64, 1, 64)` best (ties to the
/// lower index) get their AFV variant.
pub fn build_afv_transform_map_from_quantized_ac(
    ac_x: &[i32],
    ac_y: &[i32],
    ac_b: &[i32],
    bw: usize,
    bh: usize,
    distance_bits: u32,
) -> (r: Vec<u8>)
    requires
        bw * bh <= usize::MAX,
        spec_special_call_ok(SpecialKind::Afv, ac_x@, ac_y@, ac_b@, bw * bh, distance_bits),
    ensures
        r@ == spec_special_transform_map(SpecialKind::Afv, ac_x@, ac_y@, ac_b@, bw * bh, distance_bits),
{
    special_transform_map(SpecialKind::Afv, ac_x, ac_y, ac_b, bw, bh, distance_bits)
}

/// Marks a few strongly directional blocks as DCT4x8 (horizontal detail
/// dominates) or DCT8x4. Below distance 3.0 every block stays DCT8; of the
/// positively scored blocks the `clamp(n / 96, 1, 48)` best are changed.
pub fn build_directional_special_transform_map_from_quantized_ac(
    ac_x: &[i32],
    ac_y: &[i32],
    ac_b: &[i32],
    bw: usize,
    bh: usize,
    distance_bits: u32,
) -> (r: Vec<u8>)
    requires
        bw * bh <= usize::MAX,
        spec_special_call_ok(SpecialKind::Directional, ac_x@, ac_y@, ac_b@, bw * bh, distance_bits),
    ensures
        r@ == spec_special_transform_map(
            SpecialKind::Directional,
            ac_x@,
            ac_y@,
            ac_b@,
            bw * bh,
            distance_bits,
        ),
{
    special_transform_map(SpecialKind::Directional, ac_x, ac_y, ac_b, bw, bh, distance_bits)
}

/// Marks a few smooth blocks as DCT2x2 or DCT4x4 and sparse, peaked blocks as
/// IDENTITY. Below distance 3.0 every block stays DCT8; of the positively
/// scored blocks the `clamp(n / 128, 1, 32)` best are changed.
pub fn build_compact_special_transform_map_from_quantized_ac(
    ac_x: &[i32],
    ac_y: &[i32],
    ac_b: &[i32],
    bw: usize,
    bh: usize,
    distance_bits: u32,
) -> (r: Vec<u8>)
    requires
        bw * bh <= usize::MAX,
        spec_special_call_ok(SpecialKind::Compact, ac_x@, ac_y@, ac_b@, bw * bh, distance_bits),
    ensures
        r@ == spec_special_transform_map(
            SpecialKind::Compact,
            ac_x@,
            ac_y@,
            ac_b@,
            bw * bh,
            distance_bits,
        ),
{
    special_transform_map(SpecialKind::Compact, ac_x, ac_y, ac_b, bw, bh, distance_bits)
}

/// Gives each block the best of the compact, directional and AFV choices.
/// Below distance 3.0 every block stays DCT8; of the positively scored
/// blocks the `clamp(n / 16, 1, 64)` best are changed.
pub fn build_mixed_special_transform_map_from_quantized_ac(
    ac_x: &[i32],
    ac_y: &[i32],
    ac_b: &[i32],
    bw: usize,
    bh: usize,
    distance_bits: u32,
) -> (r: Vec<u8>)
    requires
        bw * bh <= usize::MAX,
        spec_special_call_ok(SpecialKind::Mixed, ac_x@, ac_y@, ac_b@, bw * bh, distance_bits),
    ensures
        r@ == spec_special_transform_map(
            SpecialKind::Mixed,
            ac_x@,
            ac_y@,
            ac_b@,
            bw * bh,
            distance_bits,
        ),
{
    special_transform_map(SpecialKind::Mixed, ac_x, ac_y, ac_b, bw, bh, distance_bits)
}


/// The ids of the transforms the heuristics place: IDENTITY, DCT2x2,
/// DCT4x4, DCT4x8, DCT8x4 and the four AFV variants, all one block in size.
pub open spec fn spec_is_small_special(id: u8) -> bool {
    id == IDENTITY_TRANSFORM_ID || id == DCT2X2_TRANSFORM_ID || id == DCT4X4_TRANSFORM_ID || (
    DCT4X8_TRANSFORM_ID <= id <= AFV3_TRANSFORM_ID)
}

proof fn lemma_choice_id(kind: SpecialKind, ac_x: Seq<i32>, ac_y: Seq<i32>, ac_b: Seq<i32>, blk: int)
    ensures
        spec_special_choice(kind, ac_x, ac_y, ac_b, blk) matches Some(p) ==> spec_is_small_special(p.1),
{
}

proof fn lemma_small_special_one_block(id: u8)
    requires
        id == 0 || spec_is_small_special(id),
    ensures
        spec_covered_x(spec_type_of_id(id as int)) == 1,
        spec_covered_y(spec_type_of_id(id as int)) == 1,
{
}

/// A special-transform map is a well-formed transform map of the grid:
/// every block stays DCT8 or becomes a transform of its own block.
pub proof fn lemma_special_map_well_formed(
    kind: SpecialKind,
    ac_x: Seq<i32>,
    ac_y: Seq<i32>,
    ac_b: Seq<i32>,
    bw: int,
    bh: int,
    distance_bits: u32,
)
    requires
        0 <= bw,
        0 <= bh,
    ensures
        spec_special_transform_map(kind, ac_x, ac_y, ac_b, bw * bh, distance_bits).len() == bw * bh,
        spec_well_formed_map(spec_special_transform_map(kind, ac_x, ac_y, ac_b, bw * bh, distance_bits), bw, bh),
{
    let n = bw * bh;
    assert(bw * bh >= 0) by (nonlinear_arith)
        requires
            0 <= bw,
            0 <= bh,
    ;
    let m = spec_special_transform_map(kind, ac_x, ac_y, ac_b, n, distance_bits);
    let c = spec_special_choices(kind, ac_x, ac_y, ac_b, n);
    assert forall|i: int| 0 <= i < n implies #[trigger] m[i] == 0x80u8 || (m[i] >= 128 && spec_is_small_special(
        (m[i] - 128) as u8,
    )) by {
        lemma_choice_id(kind, ac_x, ac_y, ac_b, i);
    }
    assert forall|bx: int, by: int|
        0 <= bx < bw && 0 <= by < bh && spec_is_first_block(
            m[#[trigger] crate::transform_map::spec_region_block(bw, 0, 0, bx, by)],
        ) implies crate::transform_map::spec_transform_fits(
        spec_entry_id(m[crate::transform_map::spec_region_block(bw, 0, 0, bx, by)]),
        bw,
        bh,
        bx,
        by,
    ) by {
        let idx = crate::transform_map::spec_region_block(bw, 0, 0, bx, by);
        assert(0 <= idx < n) by (nonlinear_arith)
            requires
                idx == (0 + by) * bw + (0 + bx),
                0 <= bx < bw,
                0 <= by < bh,
                n == bw * bh,
        ;
        let e = m[idx];
        assert(e == 0x80u8 || (e >= 128 && spec_is_small_special((e - 128) as u8)));
        assert(spec_entry_id(e) == (e - 128) as u8);
        lemma_small_special_one_block(spec_entry_id(e));
    }
}


/// Every entry of a special-transform map is the first block of a one-block
/// transform (DCT8 or a small special transform).
pub proof fn lemma_special_map_one_block(
    kind: SpecialKind,
    ac_x: Seq<i32>,
    ac_y: Seq<i32>,
    ac_b: Seq<i32>,
    n: int,
    distance_bits: u32,
)
    ensures
        spec_one_block_entries(spec_special_transform_map(kind, ac_x, ac_y, ac_b, n, distance_bits), n),
{
    let m = spec_special_transform_map(kind, ac_x, ac_y, ac_b, n, distance_bits);
    assert forall|i: int| 0 <= i < n implies {
        &&& spec_is_first_block(#[trigger] m[i])
        &&& spec_entry_id(m[i]) < 27
        &&& spec_covered_x(spec_type_of_id(spec_entry_id(m[i]) as int)) == 1
        &&& spec_covered_y(spec_type_of_id(spec_entry_id(m[i]) as int)) == 1
    } by {
        lemma_choice_id(kind, ac_x, ac_y, ac_b, i);
        let e = m[i];
        assert(e == 0x80u8 || (e >= 128 && spec_is_small_special((e - 128) as u8)));
        assert(spec_entry_id(e) == (e - 128) as u8);
        lemma_small_special_one_block(spec_entry_id(e));
    }
}

/// The blocks of map `m` that do not hold the DCT8 entry.
pub open spec fn spec_changed_blocks(m: Seq<u8>) -> Set<int> {
    Set::new(|i: int| 0 <= i < m.len() && m[i] != 0x80u8)
}

proof fn lemma_rank_strict(c: Seq<Option<(int, u8)>>, a: int, b: int, n: int)
    requires
        spec_ranked_before(c, a, b),
    ensures
        spec_rank(c, a, n) + (if 0 <= a < n { 1int } else { 0int }) <= spec_rank(c, b, n),
    decreases n,
{
    if n > 0 {
        lemma_rank_strict(c, a, b, n - 1);
        let x = n - 1;
        if spec_ranked_before(c, x, a) {
            assert(spec_ranked_before(c, x, b));
        }
    }
}

/// A special-transform heuristic changes at most its limit of blocks.
pub proof fn lemma_special_map_sparse(
    kind: SpecialKind,
    ac_x: Seq<i32>,
    ac_y: Seq<i32>,
    ac_b: Seq<i32>,
    n: int,
)
    requires
        n >= 0,
    ensures
        spec_changed_blocks(spec_special_map(kind, ac_x, ac_y, ac_b, n)).finite(),
        spec_changed_blocks(spec_special_map(kind, ac_x, ac_y, ac_b, n)).len() <= spec_special_limit(kind, n),
{
    let c = spec_special_choices(kind, ac_x, ac_y, ac_b, n);
    let limit = spec_special_limit(kind, n);
    let m = spec_special_map(kind, ac_x, ac_y, ac_b, n);
    let changed = spec_changed_blocks(m);
    lemma_int_range(0, n);
    assert(changed.subset_of(set_int_range(0, n)));
    lemma_len_subset(changed, set_int_range(0, n));
    let f = |i: int| spec_rank(c, i, n) as int;
    assert forall|i: int| #[trigger] changed.contains(i) implies c[i] is Some && spec_rank(c, i, n) < limit by {
        assert(m[i] != 0x80u8);
    }
    assert(vstd::relations::injective_on(f, changed)) by {
        assert forall|a: int, b: int| changed.contains(a) && changed.contains(b) && #[trigger] f(a) == #[trigger] f(b) implies a == b by {
            if a != b {
                if spec_ranked_before(c, a, b) {
                    lemma_rank_strict(c, a, b, n);
                } else {
                    assert(spec_ranked_before(c, b, a));
                    lemma_rank_strict(c, b, a, n);
                }
            }
        }
    }
    let image = changed.map(f);
    lemma_map_size(changed, image, f);
    lemma_int_range(0, limit);
    assert(image.subset_of(set_int_range(0, limit))) by {
        assert forall|v: int| image.contains(v) implies set_int_range(0, limit).contains(v) by {
            let i = choose|i: int| changed.contains(i) && f(i) == v;
            assert(changed.contains(i));
        }
    }
    lemma_len_subset(image, set_int_range(0, limit));
}

} // verus!

use vstd::prelude::*;

verus! {

/// Encoder knobs derived from the effort setting.
#[derive(Debug, Clone, Copy, PartialEq, Eq, Structural)]
pub struct EffortParams {
    /// Budget of full frame encodes tried while searching candidates.
    pub max_total_encodes: usize,
    /// Whether entropy-driven transform merging is tried.
    pub enable_entropy_merge: bool,
    /// Whether custom coefficient orders are computed.
    pub enable_custom_coeff_orders: bool,
}

/// Effort clamped to the supported range 1..=9.
pub open spec fn spec_clamp_effort(effort: u8) -> int {
    if effort < 1 {
        1
    } else if effort > 9 {
        9
    } else {
        effort as int
    }
}

/// Speed tier of an effort level: `10 - effort`, with effort clamped to 1..=9.
pub open spec fn spec_speed_tier(effort: u8) -> int {
    10 - spec_clamp_effort(effort)
}

/// Maps an effort level to its speed tier (1 = slowest, 9 = fastest).
pub fn effort_to_speed_tier_index(effort: u8) -> (r: u8)
    ensures
        r == spec_speed_tier(effort),
        1 <= r <= 9,
{
    let e = if effort < 1 {
        1
    } else if effort > 9 {
        9
    } else {
        effort
    };
    10 - e
}

/// Candidate-encode budget of a speed tier.
pub open spec fn spec_max_total_encodes(speed_tier: int) -> usize {
    if speed_tier == 9 {
        4
    } else if speed_tier == 8 {
        6
    } else if speed_tier == 7 {
        8
    } else if speed_tier == 6 {
        12
    } else if speed_tier == 5 {
        18
    } else if speed_tier == 4 {
        26
    } else if speed_tier == 3 {
        36
    } else if speed_tier == 2 {
        48
    } else {
        64
    }
}

/// The encoder knobs of an effort level.
pub open spec fn spec_effort_params(effort: u8) -> EffortParams {
    let tier = spec_speed_tier(effort);
    EffortParams {
        max_total_encodes: spec_max_total_encodes(tier),
        enable_entropy_merge: tier <= 5,
        enable_custom_coeff_orders: tier <= 3,
    }
}

/// The encoder knobs of an effort level.
pub fn effort_params(effort: u8) -> (r: EffortParams)
    ensures
        r == spec_effort_params(effort),
{
    let speed_tier = effort_to_speed_tier_index(effort);
    let max_total_encodes: usize = match speed_tier {
        9 => 4,
        8 => 6,
        7 => 8,
        6 => 12,
        5 => 18,
        4 => 26,
        3 => 36,
        2 => 48,
        _ => 64,
    };
    EffortParams {
        enable_entropy_merge: speed_tier <= 5,
        enable_custom_coeff_orders: speed_tier <= 3,
        max_total_encodes,
    }
}

/// Raising the effort never lowers the encode budget nor turns a search off.
pub proof fn lemma_effort_params_monotonic(e1: u8, e2: u8)
    requires
        e1 <= e2,
    ensures
        spec_effort_params(e1).max_total_encodes <= spec_effort_params(e2).max_total_encodes,
        spec_effort_params(e1).enable_entropy_merge ==> spec_effort_params(e2).enable_entropy_merge,
        spec_effort_params(e1).enable_custom_coeff_orders
            ==> spec_effort_params(e2).enable_custom_coeff_orders,
{
}

/// Which searches an effort level turns on: custom coefficient orders from
/// effort 7 up (speed tier 3, Squirrel, and slower), entropy-driven merging
/// from effort 5 up (speed tier 5, Hare, and slower); efforts above 9 act as
/// 9 and efforts below 1 as 1.
pub proof fn lemma_effort_params_thresholds(effort: u8)
    ensures
        spec_effort_params(effort).enable_custom_coeff_orders <==> effort >= 7,
        spec_effort_params(effort).enable_entropy_merge <==> effort >= 5,
        spec_effort_params(effort).enable_custom_coeff_orders <==> spec_speed_tier(effort) <= 3,
        effort > 9 ==> spec_effort_params(effort) == spec_effort_params(9),
        effort < 1 ==> spec_effort_params(effort) == spec_effort_params(1),
{
}

/// The encode budget grows strictly with the effort over 1..=9, from 4
/// encodes at effort 1 to 64 at effort 9.
pub proof fn lemma_encode_budget_strictly_grows(e1: u8, e2: u8)
    requires
        1 <= e1 < e2 <= 9,
    ensures
        spec_effort_params(e1).max_total_encodes < spec_effort_params(e2).max_total_encodes,
        spec_effort_params(1).max_total_encodes == 4,
        spec_effort_params(9).max_total_encodes == 64,
{
}

/// Number of progressive passes and the shift of each non-final pass.
pub open spec fn spec_pass_plan(
    progressive: bool,
    has_alpha: bool,
    effort: u8,
    width: usize,
    height: usize,
) -> (usize, Seq<u32>) {
    if !progressive || has_alpha {
        (1, seq![])
    } else if effort >= 9 && width * height >= 768 * 512 {
        (3, seq![2u32, 1u32])
    } else {
        (2, seq![1u32])
    }
}

/// Chooses the progressive pass layout: one pass unless progressive output is
/// requested without alpha; three passes only for large images at effort 9.
pub fn choose_progressive_pass_plan(
    progressive: bool,
    has_alpha: bool,
    effort: u8,
    width: usize,
    height: usize,
) -> (r: (usize, Vec<u32>))
    ensures
        r.0 == spec_pass_plan(progressive, has_alpha, effort, width, height).0,
        r.1@ == spec_pass_plan(progressive, has_alpha, effort, width, height).1,
        r.1@.len() + 1 == r.0,
{
    if !progressive || has_alpha {
        return (1, Vec::new());
    }
    let large = match width.checked_mul(height) {
        Some(pixels) => pixels >= 768 * 512,
        None => true,
    };
    if effort >= 9 && large {
        let mut v = Vec::new();
        v.push(2u32);
        v.push(1u32);
        (3, v)
    } else {
        let mut v = Vec::new();
        v.push(1u32);
        (2, v)
    }
}

} // verus!

verus! {

/// Shift of a pass as the encoder applies it: the value clamped to 0..=3,
/// where values that do not fit a signed 32-bit integer count as negative.
pub open spec fn spec_effective_shift(s: u32) -> u32 {
    if s <= 3 {
        s
    } else if s <= 0x7fff_ffff {
        3
    } else {
        0
    }
}

/// Shift used by non-final pass `p`; a missing entry means no shift.
pub open spec fn spec_pass_shift(shifts: Seq<u32>, p: int) -> u32 {
    if 0 <= p < shifts.len() {
        spec_effective_shift(shifts[p])
    } else {
        0
    }
}

/// Number of leading coefficients (of each 64) the final pass keeps.
pub open spec fn spec_residual_keep(effort: u8) -> int {
    if effort <= 3 {
        40
    } else if effort <= 5 {
        48
    } else if effort <= 7 {
        52
    } else {
        64
    }
}

/// Number of leading coefficients the middle pass keeps when there are three passes.
pub open spec fn spec_mid_keep(num_passes: int, effort: u8) -> int {
    if num_passes >= 3 {
        if effort <= 7 {
            56
        } else {
            48
        }
    } else {
        64
    }
}

/// Whether non-final pass `p` carries the coefficient at position `k` of its block.
pub open spec fn spec_pass_keeps(num_passes: int, p: int, k: int, effort: u8) -> bool {
    !(num_passes >= 3 && p == num_passes - 2) || k < spec_mid_keep(num_passes, effort)
}

/// What is left of coefficient `v` after the first `p` non-final passes took their share.
pub open spec fn spec_residual(
    v: i32,
    p: nat,
    k: int,
    num_passes: int,
    shifts: Seq<u32>,
    effort: u8,
) -> i32
    decreases p,
{
    if p == 0 {
        v
    } else {
        let r = spec_residual(v, (p - 1) as nat, k, num_passes, shifts, effort);
        let s = spec_pass_shift(shifts, p - 1);
        if spec_pass_keeps(num_passes, p - 1, k, effort) {
            (r - ((r >> s) << s)) as i32
        } else {
            r
        }
    }
}

/// The value pass `p` carries for coefficient `v` at position `k` of its block.
pub open spec fn spec_pass_value(
    v: i32,
    p: int,
    k: int,
    num_passes: int,
    shifts: Seq<u32>,
    effort: u8,
) -> i32 {
    if num_passes == 1 {
        v
    } else if p < num_passes - 1 {
        if spec_pass_keeps(num_passes, p, k, effort) {
            spec_residual(v, p as nat, k, num_passes, shifts, effort) >> spec_pass_shift(shifts, p)
        } else {
            0
        }
    } else if k < spec_residual_keep(effort) {
        spec_residual(v, p as nat, k, num_passes, shifts, effort)
    } else {
        0
    }
}

/// What is left of a coefficient is the coefficient itself or lies in `0..8`.
proof fn lemma_residual_range(v: i32, p: nat, k: int, num_passes: int, shifts: Seq<u32>, effort: u8)
    ensures
        ({
            let r = spec_residual(v, p, k, num_passes, shifts, effort);
            r == v || 0 <= r < 8
        }),
    decreases p,
{
    if p > 0 {
        lemma_residual_range(v, (p - 1) as nat, k, num_passes, shifts, effort);
        let r = spec_residual(v, (p - 1) as nat, k, num_passes, shifts, effort);
        let s = spec_pass_shift(shifts, p - 1);
        lemma_shift_split(r, s);
    }
}

/// Splitting a coefficient other than `i32::MIN` into passes never yields
/// `i32::MIN`.
pub(crate) proof fn lemma_pass_value_not_min(
    v: i32,
    p: int,
    k: int,
    num_passes: int,
    shifts: Seq<u32>,
    effort: u8,
)
    requires
        v != i32::MIN,
        0 <= p < num_passes,
    ensures
        spec_pass_value(v, p, k, num_passes, shifts, effort) != i32::MIN,
{
    if num_passes != 1 {
        lemma_residual_range(v, p as nat, k, num_passes, shifts, effort);
        let r = spec_residual(v, p as nat, k, num_passes, shifts, effort);
        let s = spec_pass_shift(shifts, p);
        if p < num_passes - 1 {
            assert(s <= 3);
            assert(r != i32::MIN && s <= 3 ==> (r >> s) != i32::MIN) by (bit_vector);
        }
    }
}

proof fn lemma_shift_split(r: i32, s: u32)
    requires
        s <= 3,
    ensures
        ((r >> s) << s) as int == (r >> s) as int * (if s == 0 { 1int } else if s == 1 { 2int } else if s == 2 { 4int } else { 8int }),
        0 <= r - ((r >> s) << s) < (if s == 0 { 1int } else if s == 1 { 2int } else if s == 2 { 4int } else { 8int }),
{
    if s == 0 {
        assert(((r >> 0u32) << 0u32) == r && (r >> 0u32) == r) by (bit_vector);
    } else if s == 1 {
        assert(((r >> 1u32) << 1u32) == (r >> 1u32) * 2 && 0 <= r - ((r >> 1u32) << 1u32) < 2) by (bit_vector);
    } else if s == 2 {
        assert(((r >> 2u32) << 2u32) == (r >> 2u32) * 4 && 0 <= r - ((r >> 2u32) << 2u32) < 4) by (bit_vector);
    } else {
        assert(((r >> 3u32) << 3u32) == (r >> 3u32) * 8 && 0 <= r - ((r >> 3u32) << 3u32) < 8) by (bit_vector);
    }
}

} // verus!

verus! {

fn effective_shift(s: u32) -> (r: u32)
    ensures
        r == spec_effective_shift(s),
        r <= 3,
{
    if s <= 3 {
        s
    } else if s <= 0x7fff_ffff {
        3
    } else {
        0
    }
}

fn pass_shift(shifts: &[u32], p: usize) -> (r: u32)
    ensures
        r == spec_pass_shift(shifts@, p as int),
        r <= 3,
{
    if p < shifts.len() {
        effective_shift(shifts[p])
    } else {
        0
    }
}

fn residual_keep(effort: u8) -> (r: usize)
    ensures
        r == spec_residual_keep(effort),
{
    if effort <= 3 {
        40
    } else if effort <= 5 {
        48
    } else if effort <= 7 {
        52
    } else {
        64
    }
}

fn pass_keeps(num_passes: usize, p: usize, k: usize, effort: u8) -> (r: bool)
    requires
        num_passes >= 1,
    ensures
        r == spec_pass_keeps(num_passes as int, p as int, k as int, effort),
{
    let mid_keep: usize = if num_passes >= 3 {
        if effort <= 7 {
            56
        } else {
            48
        }
    } else {
        64
    };
    !(num_passes >= 3 && p == num_passes - 2) || k < mid_keep
}

/// The value non-final or final pass `p` carries for coefficient `v` at
/// position `k` of its block.
pub fn coefficient_for_pass(
    v: i32,
    p: usize,
    k: usize,
    num_passes: usize,
    pass_shifts: &[u32],
    effort: u8,
) -> (r: i32)
    requires
        num_passes >= 1,
        p < num_passes,
    ensures
        r == spec_pass_value(v, p as int, k as int, num_passes as int, pass_shifts@, effort),
{
    if num_passes == 1 {
        return v;
    }
    let mut r = v;
    let mut q: usize = 0;
    while q < p
        invariant
            q <= p < num_passes,
            num_passes >= 2,
            r == spec_residual(v, q as nat, k as int, num_passes as int, pass_shifts@, effort),
        decreases p - q,
    {
        let s = pass_shift(pass_shifts, q);
        if pass_keeps(num_passes, q, k, effort) {
            proof {
                lemma_shift_split(r, s);
            }
            r = r - ((r >> s) << s);
        }
        q = q + 1;
    }
    if p < num_passes - 1 {
        if pass_keeps(num_passes, p, k, effort) {
            let s = pass_shift(pass_shifts, p);
            r >> s
        } else {
            0
        }
    } else if k < residual_keep(effort) {
        r
    } else {
        0
    }
}

/// Splits one channel's quantized AC coefficients into progressive passes:
/// each non-final pass carries the coefficient shifted right by its shift
/// (taking that share away), and the final pass carries what is left.
/// With a single pass the coefficients are copied unchanged.
pub fn split_ac_into_passes(
    ac: &[i32],
    num_passes: usize,
    pass_shifts: &[u32],
    effort: u8,
) -> (r: Vec<Vec<i32>>)
    requires
        num_passes >= 1,
    ensures
        r@.len() == num_passes,
        forall|p: int| 0 <= p < num_passes ==> #[trigger] r@[p]@.len() == ac@.len(),
        forall|p: int, i: int|
            0 <= p < num_passes && 0 <= i < ac@.len() ==> #[trigger] r@[p]@[i] == spec_pass_value(
                ac@[i],
                p,
                i % 64,
                num_passes as int,
                pass_shifts@,
                effort,
            ),
{
    let mut out: Vec<Vec<i32>> = Vec::new();
    let mut p: usize = 0;
    while p < num_passes
        invariant
            p <= num_passes,
            num_passes >= 1,
            out@.len() == p,
            forall|q: int| 0 <= q < p ==> #[trigger] out@[q]@.len() == ac@.len(),
            forall|q: int, i: int|
                0 <= q < p && 0 <= i < ac@.len() ==> #[trigger] out@[q]@[i] == spec_pass_value(
                    ac@[i],
                    q,
                    i % 64,
                    num_passes as int,
                    pass_shifts@,
                    effort,
                ),
        decreases num_passes - p,
    {
        let mut pass: Vec<i32> = Vec::new();
        let mut i: usize = 0;
        while i < ac.len()
            invariant
                i <= ac@.len(),
                p < num_passes,
                pass@.len() == i,
                forall|j: int|
                    0 <= j < i ==> #[trigger] pass@[j] == spec_pass_value(
                        ac@[j],
                        p as int,
                        j % 64,
                        num_passes as int,
                        pass_shifts@,
                        effort,
                    ),
            decreases ac@.len() - i,
        {
            let v = coefficient_for_pass(ac[i], p, i % 64, num_passes, pass_shifts, effort);
            pass.push(v);
            i = i + 1;
        }
        out.push(pass);
        p = p + 1;
    }
    out
}

} // verus!

verus! {

/// `2^s` for the shifts 0..=3 a pass can use.
pub open spec fn spec_shift_weight(s: u32) -> int {
    if s == 0 {
        1
    } else if s == 1 {
        2
    } else if s == 2 {
        4
    } else {
        8
    }
}

/// Sum over the first `count` non-final passes of each pass's value scaled back by its shift.
pub open spec fn spec_weighted_pass_sum(
    v: i32,
    count: nat,
    k: int,
    num_passes: int,
    shifts: Seq<u32>,
    effort: u8,
) -> int
    decreases count,
{
    if count == 0 {
        0
    } else {
        let p = count - 1;
        spec_weighted_pass_sum(v, p as nat, k, num_passes, shifts, effort) + spec_pass_value(
            v,
            p,
            k,
            num_passes,
            shifts,
            effort,
        ) as int * spec_shift_weight(spec_pass_shift(shifts, p))
    }
}

proof fn lemma_partial_reconstruction(
    v: i32,
    count: nat,
    k: int,
    num_passes: int,
    shifts: Seq<u32>,
    effort: u8,
)
    requires
        num_passes >= 2,
        count <= num_passes - 1,
    ensures
        spec_weighted_pass_sum(v, count, k, num_passes, shifts, effort) + spec_residual(
            v,
            count,
            k,
            num_passes,
            shifts,
            effort,
        ) == v,
    decreases count,
{
    if count > 0 {
        let p = (count - 1) as nat;
        lemma_partial_reconstruction(v, p, k, num_passes, shifts, effort);
        let r = spec_residual(v, p, k, num_passes, shifts, effort);
        let s = spec_pass_shift(shifts, p as int);
        lemma_shift_split(r, s);
    }
}

/// Progressive passes lose nothing: for every coefficient the final pass keeps
/// (position `k` of its block below the final pass's keep count), scaling each
/// non-final pass's value back by its shift and adding the final pass's value
/// gives the coefficient back.
pub proof fn lemma_passes_reconstruct_coefficient(
    v: i32,
    k: int,
    num_passes: int,
    shifts: Seq<u32>,
    effort: u8,
)
    requires
        num_passes >= 2,
        k < spec_residual_keep(effort),
    ensures
        spec_weighted_pass_sum(v, (num_passes - 1) as nat, k, num_passes, shifts, effort)
            + spec_pass_value(v, num_passes - 1, k, num_passes, shifts, effort) == v,
{
    lemma_partial_reconstruction(v, (num_passes - 1) as nat, k, num_passes, shifts, effort);
}

/// With a single pass, that pass carries every coefficient unchanged.
pub proof fn lemma_single_pass_is_identity(v: i32, k: int, shifts: Seq<u32>, effort: u8)
    ensures
        spec_pass_value(v, 0, k, 1, shifts, effort) == v,
{
}

} // verus!

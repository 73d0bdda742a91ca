use vstd::prelude::*;
use vstd::arithmetic::div_mod::lemma_fundamental_div_mod_converse;
use crate::tokenize::{lemma_tokenize_accepts_well_formed, spec_tokenize_region, HfRegion};
use crate::transform::{
    covered_blocks_x, covered_blocks_y, spec_covered_x, spec_covered_y, spec_entry_id,
    spec_is_first_block, spec_type_of_id, HfTransformType,
};
use crate::transform_map::{
    build_default_transform_map, lemma_zero_non_dct8_accepts_well_formed,
    quantized_transform_region_abs_sum, quantized_transform_region_ac_all_zero, spec_default_entry,
    spec_abs_prefix, spec_block_abs_sum, spec_block_ac_all_zero, spec_max_abs,
    spec_region_abs_sum, spec_region_ac_all_zero, spec_region_block, spec_region_row_abs_sum,
    spec_transform_fits, spec_well_formed_map, spec_zero_non_dct8, spec_covers, spec_in_grid,
    spec_tiling,
};

verus! {

/// How a candidate region is judged when merging blocks into larger transforms.
pub enum MergeRule {
    /// Every AC coefficient of every channel in the region is zero.
    AllZero,
    /// The summed absolute AC coefficients of all channels stay within the
    /// given budget per covered block.
    EnergyBudget(u64),
}

/// A transform placed at (`bx`, `by`) of size `cx` x `cy` stays within one 32x32-block group.
pub open spec fn spec_fits_group(bx: int, by: int, cx: int, cy: int) -> bool {
    bx / 32 == (bx + cx - 1) / 32 && by / 32 == (by + cy - 1) / 32
}

/// Block `i` belongs to the `cx` x `cy` region at (`bx`, `by`).
pub open spec fn spec_in_region_blocks(i: int, bw: int, bx: int, by: int, cx: int, cy: int) -> bool {
    exists|ix: int, iy: int|
        0 <= ix < cx && 0 <= iy < cy && i == #[trigger] spec_region_block(bw, bx, by, ix, iy)
}

/// No block of the region is covered yet.
pub open spec fn spec_region_free(
    covered: Seq<bool>,
    bw: int,
    bx: int,
    by: int,
    cx: int,
    cy: int,
) -> bool {
    forall|ix: int, iy: int|
        0 <= ix < cx && 0 <= iy < cy ==> !covered[#[trigger] spec_region_block(bw, bx, by, ix, iy)]
}

/// The rule accepts the region.
pub open spec fn spec_accepts(
    rule: MergeRule,
    ac_x: Seq<i32>,
    ac_y: Seq<i32>,
    ac_b: Seq<i32>,
    bw: int,
    bx: int,
    by: int,
    cx: int,
    cy: int,
) -> bool {
    match rule {
        MergeRule::AllZero => spec_region_ac_all_zero(ac_x, bw, bx, by, cx, cy)
            && spec_region_ac_all_zero(ac_y, bw, bx, by, cx, cy) && spec_region_ac_all_zero(
            ac_b,
            bw,
            bx,
            by,
            cx,
            cy,
        ),
        MergeRule::EnergyBudget(per_block) => spec_region_abs_sum(ac_x, bw, bx, by, cx, cy)
            + spec_region_abs_sum(ac_y, bw, bx, by, cx, cy) + spec_region_abs_sum(
            ac_b,
            bw,
            bx,
            by,
            cx,
            cy,
        ) <= per_block * (cx * cy),
    }
}

/// Marks the region as transform `id`: its top-left block gets the first-block
/// flag, the other blocks the bare id, and all its blocks become covered.
pub open spec fn spec_place(
    state: (Seq<u8>, Seq<bool>),
    bw: int,
    bx: int,
    by: int,
    cx: int,
    cy: int,
    id: u8,
) -> (Seq<u8>, Seq<bool>) {
    (
        Seq::new(
            state.0.len(),
            |i: int|
                if spec_in_region_blocks(i, bw, bx, by, cx, cy) {
                    if i == by * bw + bx {
                        (id + 128) as u8
                    } else {
                        id
                    }
                } else {
                    state.0[i]
                },
        ),
        Seq::new(
            state.1.len(),
            |i: int| spec_in_region_blocks(i, bw, bx, by, cx, cy) || state.1[i],
        ),
    )
}

/// Considers placing priority entry `p` with its top-left block at (`bx`, `by`).
pub open spec fn spec_merge_step(
    state: (Seq<u8>, Seq<bool>),
    rule: MergeRule,
    ac_x: Seq<i32>,
    ac_y: Seq<i32>,
    ac_b: Seq<i32>,
    bw: int,
    bh: int,
    id: u8,
    bx: int,
    by: int,
) -> (Seq<u8>, Seq<bool>) {
    let t = spec_type_of_id(id as int);
    let cx = spec_covered_x(t) as int;
    let cy = spec_covered_y(t) as int;
    if id >= 27 || (cx == 1 && cy == 1) {
        state
    } else if bx + cx > bw || by + cy > bh || !spec_fits_group(bx, by, cx, cy) {
        state
    } else if !spec_region_free(state.1, bw, bx, by, cx, cy) {
        state
    } else if !spec_accepts(rule, ac_x, ac_y, ac_b, bw, bx, by, cx, cy) {
        state
    } else {
        spec_place(state, bw, bx, by, cx, cy, id)
    }
}

/// State after trying the first `n` positions of row `by`.
pub open spec fn spec_merge_cols(
    state: (Seq<u8>, Seq<bool>),
    rule: MergeRule,
    ac_x: Seq<i32>,
    ac_y: Seq<i32>,
    ac_b: Seq<i32>,
    bw: int,
    bh: int,
    id: u8,
    by: int,
    n: int,
) -> (Seq<u8>, Seq<bool>)
    decreases n,
{
    if n <= 0 {
        state
    } else {
        spec_merge_step(
            spec_merge_cols(state, rule, ac_x, ac_y, ac_b, bw, bh, id, by, n - 1),
            rule,
            ac_x,
            ac_y,
            ac_b,
            bw,
            bh,
            id,
            n - 1,
            by,
        )
    }
}

/// State after trying the first `m` rows of positions for transform `id`.
pub open spec fn spec_merge_rows(
    state: (Seq<u8>, Seq<bool>),
    rule: MergeRule,
    ac_x: Seq<i32>,
    ac_y: Seq<i32>,
    ac_b: Seq<i32>,
    bw: int,
    bh: int,
    id: u8,
    m: int,
) -> (Seq<u8>, Seq<bool>)
    decreases m,
{
    if m <= 0 {
        state
    } else {
        spec_merge_cols(
            spec_merge_rows(state, rule, ac_x, ac_y, ac_b, bw, bh, id, m - 1),
            rule,
            ac_x,
            ac_y,
            ac_b,
            bw,
            bh,
            id,
            m - 1,
            bw,
        )
    }
}

/// State after trying the first `k` transforms of the priority list.
pub open spec fn spec_merge_priorities(
    rule: MergeRule,
    ac_x: Seq<i32>,
    ac_y: Seq<i32>,
    ac_b: Seq<i32>,
    bw: int,
    bh: int,
    priority: Seq<u8>,
    k: int,
) -> (Seq<u8>, Seq<bool>)
    decreases k,
{
    if k <= 0 {
        (Seq::new((bw * bh) as nat, |i: int| spec_default_entry()), Seq::new((bw * bh) as nat, |i: int| false))
    } else {
        spec_merge_rows(
            spec_merge_priorities(rule, ac_x, ac_y, ac_b, bw, bh, priority, k - 1),
            rule,
            ac_x,
            ac_y,
            ac_b,
            bw,
            bh,
            priority[k - 1],
            bh,
        )
    }
}

/// The transform map a greedy merge produces: for each transform of the
/// priority list in turn, every position in raster order where the
/// transform fits the grid and one 32x32-block group, covers no block used
/// so far, and is accepted by the rule becomes that transform.
pub open spec fn spec_greedy_merge_map(
    rule: MergeRule,
    ac_x: Seq<i32>,
    ac_y: Seq<i32>,
    ac_b: Seq<i32>,
    bw: int,
    bh: int,
    priority: Seq<u8>,
) -> Seq<u8> {
    spec_merge_priorities(rule, ac_x, ac_y, ac_b, bw, bh, priority, priority.len() as int).0
}

} // verus!

verus! {

proof fn lemma_region_blocks_distinct(bw: int, bx: int, by: int, ix: int, iy: int, jx: int, jy: int)
    requires
        0 <= bx,
        0 <= by,
        0 <= ix,
        0 <= jx,
        0 <= iy,
        0 <= jy,
        bx + ix < bw,
        bx + jx < bw,
        spec_region_block(bw, bx, by, ix, iy) == spec_region_block(bw, bx, by, jx, jy),
    ensures
        ix == jx && iy == jy,
{
    if iy < jy {
        assert((by + iy) * bw + bw <= (by + jy) * bw) by (nonlinear_arith)
            requires
                iy < jy,
                bw >= 0,
        ;
    } else if jy < iy {
        assert((by + jy) * bw + bw <= (by + iy) * bw) by (nonlinear_arith)
            requires
                jy < iy,
                bw >= 0,
        ;
    }
}

proof fn lemma_region_in_grid(bw: int, bh: int, bx: int, by: int, cx: int, cy: int, ix: int, iy: int)
    requires
        0 <= bx,
        0 <= by,
        bx + cx <= bw,
        by + cy <= bh,
        0 <= ix < cx,
        0 <= iy < cy,
    ensures
        0 <= spec_region_block(bw, bx, by, ix, iy) < bw * bh,
{
    assert((by + iy) * bw + bx + ix < bw * bh) by (nonlinear_arith)
        requires
            by + iy < bh,
            bx + ix < bw,
            0 <= by + iy,
            0 <= bx + ix,
    ;
    assert(0 <= (by + iy) * bw) by (nonlinear_arith)
        requires
            by + iy >= 0,
            bw >= 0,
    ;
}

fn region_free(covered: &Vec<bool>, bw: usize, bh: usize, bx: usize, by: usize, cx: usize, cy: usize) -> (r: bool)
    requires
        covered@.len() == bw * bh,
        bx + cx <= bw,
        by + cy <= bh,
    ensures
        r == spec_region_free(covered@, bw as int, bx as int, by as int, cx as int, cy as int),
{
    let n = covered.len();
    let mut iy: usize = 0;
    while iy < cy
        invariant
            iy <= cy,
            n == bw * bh,
            covered@.len() == bw * bh,
            bx + cx <= bw,
            by + cy <= bh,
            forall|ix: int, jy: int|
                0 <= ix < cx && 0 <= jy < iy ==> !covered@[#[trigger] spec_region_block(
                    bw as int,
                    bx as int,
                    by as int,
                    ix,
                    jy,
                )],
        decreases cy - iy,
    {
        let mut ix: usize = 0;
        while ix < cx
            invariant
                ix <= cx,
                iy < cy,
                n == bw * bh,
                covered@.len() == bw * bh,
                bx + cx <= bw,
                by + cy <= bh,
                forall|jx: int, jy: int|
                    (0 <= jx < cx && 0 <= jy < iy) || (0 <= jx < ix && jy == iy) ==> !covered@[#[trigger] spec_region_block(
                        bw as int,
                        bx as int,
                        by as int,
                        jx,
                        jy,
                    )],
            decreases cx - ix,
        {
            proof {
                lemma_region_in_grid(bw as int, bh as int, bx as int, by as int, cx as int, cy as int, ix as int, iy as int);
            }
            if covered[(by + iy) * bw + (bx + ix)] {
                return false;
            }
            ix = ix + 1;
        }
        iy = iy + 1;
    }
    true
}

fn place_region(
    map: &mut Vec<u8>,
    covered: &mut Vec<bool>,
    bw: usize,
    bh: usize,
    bx: usize,
    by: usize,
    cx: usize,
    cy: usize,
    id: u8,
)
    requires
        old(map)@.len() == bw * bh,
        old(covered)@.len() == bw * bh,
        bx + cx <= bw,
        by + cy <= bh,
        id < 128,
    ensures
        (final(map)@, final(covered)@) == spec_place(
            (old(map)@, old(covered)@),
            bw as int,
            bx as int,
            by as int,
            cx as int,
            cy as int,
            id,
        ),
{
    let ghost (w, x0, y0) = (bw as int, bx as int, by as int);
    let ghost m0 = map@;
    let ghost c0 = covered@;
    let first_value: u8 = id + 128;
    let n = map.len();
    let mut iy: usize = 0;
    while iy < cy
        invariant
            iy <= cy,
            n == bw * bh,
            w == bw,
            x0 == bx,
            y0 == by,
            m0 == old(map)@,
            c0 == old(covered)@,
            map@.len() == bw * bh,
            covered@.len() == bw * bh,
            bx + cx <= bw,
            by + cy <= bh,
            first_value == id + 128,
            forall|i: int|
                0 <= i < bw * bh ==> #[trigger] map@[i] == (if spec_in_region_blocks(
                    i,
                    w,
                    x0,
                    y0,
                    cx as int,
                    iy as int,
                ) {
                    if i == y0 * w + x0 {
                        first_value
                    } else {
                        id
                    }
                } else {
                    m0[i]
                }),
            forall|i: int|
                0 <= i < bw * bh ==> #[trigger] covered@[i] == (spec_in_region_blocks(
                    i,
                    w,
                    x0,
                    y0,
                    cx as int,
                    iy as int,
                ) || c0[i]),
        decreases cy - iy,
    {
        let mut ix: usize = 0;
        while ix < cx
            invariant
                ix <= cx,
                iy < cy,
                n == bw * bh,
                w == bw,
                x0 == bx,
                y0 == by,
                m0 == old(map)@,
                c0 == old(covered)@,
                map@.len() == bw * bh,
                covered@.len() == bw * bh,
                bx + cx <= bw,
                by + cy <= bh,
                first_value == id + 128,
                forall|i: int|
                    0 <= i < bw * bh ==> #[trigger] map@[i] == (if spec_in_region_blocks(
                        i,
                        w,
                        x0,
                        y0,
                        cx as int,
                        iy as int,
                    ) || (exists|jx: int|
                        0 <= jx < ix && i == #[trigger] spec_region_block(w, x0, y0, jx, iy as int)) {
                        if i == y0 * w + x0 {
                            first_value
                        } else {
                            id
                        }
                    } else {
                        m0[i]
                    }),
                forall|i: int|
                    0 <= i < bw * bh ==> #[trigger] covered@[i] == (spec_in_region_blocks(
                        i,
                        w,
                        x0,
                        y0,
                        cx as int,
                        iy as int,
                    ) || (exists|jx: int|
                        0 <= jx < ix && i == #[trigger] spec_region_block(w, x0, y0, jx, iy as int))
                        || c0[i]),
            decreases cx - ix,
        {
            proof {
                lemma_region_in_grid(w, bh as int, x0, y0, cx as int, cy as int, ix as int, iy as int);
            }
            let idx = (by + iy) * bw + (bx + ix);
            let value = if ix == 0 && iy == 0 {
                first_value
            } else {
                id
            };
            proof {
                if idx == y0 * w + x0 {
                    lemma_region_blocks_distinct(w, x0, y0, ix as int, iy as int, 0, 0);
                }
                if ix == 0 && iy == 0 {
                    assert(idx == y0 * w + x0);
                }
            }
            map.set(idx, value);
            covered.set(idx, true);
            proof {
                let ghost jx_new = ix as int;
                assert forall|i: int| 0 <= i < bw * bh implies #[trigger] map@[i] == (if spec_in_region_blocks(
                    i,
                    w,
                    x0,
                    y0,
                    cx as int,
                    iy as int,
                ) || (exists|jx: int|
                    0 <= jx < ix + 1 && i == #[trigger] spec_region_block(w, x0, y0, jx, iy as int)) {
                    if i == y0 * w + x0 {
                        first_value
                    } else {
                        id
                    }
                } else {
                    m0[i]
                }) && covered@[i] == (spec_in_region_blocks(i, w, x0, y0, cx as int, iy as int) || (exists|jx: int|
                    0 <= jx < ix + 1 && i == #[trigger] spec_region_block(w, x0, y0, jx, iy as int))
                    || c0[i]) by {
                    if i == idx {
                        assert(0 <= jx_new < ix + 1 && i == spec_region_block(w, x0, y0, jx_new, iy as int));
                    } else {
                        if exists|jx: int|
                            0 <= jx < ix + 1 && i == #[trigger] spec_region_block(w, x0, y0, jx, iy as int) {
                            let jx = choose|jx: int|
                                0 <= jx < ix + 1 && i == #[trigger] spec_region_block(w, x0, y0, jx, iy as int);
                            if jx == ix {
                                assert(false);
                            } else {
                                assert(0 <= jx < ix && i == spec_region_block(w, x0, y0, jx, iy as int));
                            }
                        }
                    }
                }
            }
            ix = ix + 1;
        }
        proof {
            assert forall|i: int| 0 <= i < bw * bh implies (spec_in_region_blocks(i, w, x0, y0, cx as int, iy + 1)
                == (spec_in_region_blocks(i, w, x0, y0, cx as int, iy as int) || (exists|jx: int|
                0 <= jx < cx && i == #[trigger] spec_region_block(w, x0, y0, jx, iy as int)))) by {
                if spec_in_region_blocks(i, w, x0, y0, cx as int, iy + 1) {
                    let (jx, jy) = choose|jx: int, jy: int|
                        0 <= jx < cx && 0 <= jy < iy + 1 && i == #[trigger] spec_region_block(w, x0, y0, jx, jy);
                    if jy < iy {
                        assert(0 <= jx < cx && 0 <= jy < iy && i == spec_region_block(w, x0, y0, jx, jy));
                    } else {
                        assert(0 <= jx < cx && i == spec_region_block(w, x0, y0, jx, iy as int));
                    }
                }
                if spec_in_region_blocks(i, w, x0, y0, cx as int, iy as int) {
                    let (jx, jy) = choose|jx: int, jy: int|
                        0 <= jx < cx && 0 <= jy < iy && i == #[trigger] spec_region_block(w, x0, y0, jx, jy);
                    assert(0 <= jx < cx && 0 <= jy < iy + 1 && i == spec_region_block(w, x0, y0, jx, jy));
                }
                if exists|jx: int| 0 <= jx < cx && i == #[trigger] spec_region_block(w, x0, y0, jx, iy as int) {
                    let jx = choose|jx: int| 0 <= jx < cx && i == #[trigger] spec_region_block(w, x0, y0, jx, iy as int);
                    assert(0 <= jx < cx && 0 <= iy < iy + 1 && i == spec_region_block(w, x0, y0, jx, iy as int));
                }
            }
        }
        iy = iy + 1;
    }
    proof {
        assert(map@ =~= spec_place((m0, c0), w, x0, y0, cx as int, cy as int, id).0);
        assert(covered@ =~= spec_place((m0, c0), w, x0, y0, cx as int, cy as int, id).1);
    }
}

} // verus!

verus! {

proof fn lemma_merge_cols_noop(
    state: (Seq<u8>, Seq<bool>),
    rule: MergeRule,
    ac_x: Seq<i32>,
    ac_y: Seq<i32>,
    ac_b: Seq<i32>,
    bw: int,
    bh: int,
    id: u8,
    by: int,
    n: int,
)
    requires
        id >= 27 || (spec_covered_x(spec_type_of_id(id as int)) == 1 && spec_covered_y(
            spec_type_of_id(id as int),
        ) == 1),
    ensures
        spec_merge_cols(state, rule, ac_x, ac_y, ac_b, bw, bh, id, by, n) == state,
    decreases n,
{
    if n > 0 {
        lemma_merge_cols_noop(state, rule, ac_x, ac_y, ac_b, bw, bh, id, by, n - 1);
    }
}

proof fn lemma_merge_rows_noop(
    state: (Seq<u8>, Seq<bool>),
    rule: MergeRule,
    ac_x: Seq<i32>,
    ac_y: Seq<i32>,
    ac_b: Seq<i32>,
    bw: int,
    bh: int,
    id: u8,
    m: int,
)
    requires
        id >= 27 || (spec_covered_x(spec_type_of_id(id as int)) == 1 && spec_covered_y(
            spec_type_of_id(id as int),
        ) == 1),
    ensures
        spec_merge_rows(state, rule, ac_x, ac_y, ac_b, bw, bh, id, m) == state,
    decreases m,
{
    if m > 0 {
        lemma_merge_rows_noop(state, rule, ac_x, ac_y, ac_b, bw, bh, id, m - 1);
        lemma_merge_cols_noop(
            spec_merge_rows(state, rule, ac_x, ac_y, ac_b, bw, bh, id, m - 1),
            rule,
            ac_x,
            ac_y,
            ac_b,
            bw,
            bh,
            id,
            m - 1,
            bw,
        );
    }
}

/// The energy budget of every multi-block transform named in the priority
/// list can be computed without overflow.
pub open spec fn spec_budget_fits(rule: MergeRule, priority: Seq<u8>) -> bool {
    match rule {
        MergeRule::AllZero => true,
        MergeRule::EnergyBudget(per_block) => forall|p: int|
            0 <= p < priority.len() && priority[p] < 27 ==> per_block * (spec_covered_x(
                spec_type_of_id(priority[p] as int),
            ) * spec_covered_y(spec_type_of_id(#[trigger] priority[p] as int))) <= u64::MAX,
    }
}

fn build_greedy_merge_map(
    ac_x: &[i32],
    ac_y: &[i32],
    ac_b: &[i32],
    bw: usize,
    bh: usize,
    priority: &[u8],
    rule: MergeRule,
) -> (r: Vec<u8>)
    requires
        ac_x@.len() >= bw * bh * 64,
        ac_y@.len() >= bw * bh * 64,
        ac_b@.len() >= bw * bh * 64,
        spec_budget_fits(rule, priority@),
    ensures
        r@ == spec_greedy_merge_map(rule, ac_x@, ac_y@, ac_b@, bw as int, bh as int, priority@),
{
    let ghost (w, h) = (bw as int, bh as int);
    let ax_len = ac_x.len();
    proof {
        assert(bw * bh <= bw * bh * 64) by (nonlinear_arith);
    }
    let mut transform_map = build_default_transform_map(bw, bh);
    let mut covered: Vec<bool> = Vec::new();
    let mut i: usize = 0;
    while i < bw * bh
        invariant
            i <= bw * bh,
            bw * bh <= ax_len,
            covered@.len() == i,
            forall|j: int| 0 <= j < i ==> #[trigger] covered@[j] == false,
        decreases bw * bh - i,
    {
        covered.push(false);
        i = i + 1;
    }
    proof {
        assert(transform_map@ =~= spec_merge_priorities(rule, ac_x@, ac_y@, ac_b@, w, h, priority@, 0).0);
        assert(covered@ =~= spec_merge_priorities(rule, ac_x@, ac_y@, ac_b@, w, h, priority@, 0).1);
    }
    let mut k: usize = 0;
    while k < priority.len()
        invariant
            k <= priority@.len(),
            w == bw,
            h == bh,
            ax_len == ac_x@.len(),
            ac_x@.len() >= bw * bh * 64,
            ac_y@.len() >= bw * bh * 64,
            ac_b@.len() >= bw * bh * 64,
            spec_budget_fits(rule, priority@),
            transform_map@.len() == bw * bh,
            covered@.len() == bw * bh,
            (transform_map@, covered@) == spec_merge_priorities(
                rule,
                ac_x@,
                ac_y@,
                ac_b@,
                w,
                h,
                priority@,
                k as int,
            ),
        decreases priority@.len() - k,
    {
        let transform_id = priority[k];
        let ghost start = (transform_map@, covered@);
        let transform_type = match HfTransformType::from_usize(transform_id as usize) {
            Some(t) => t,
            None => {
                proof {
                    lemma_merge_rows_noop(start, rule, ac_x@, ac_y@, ac_b@, w, h, transform_id, h);
                }
                k = k + 1;
                continue;
            },
        };
        let cx = covered_blocks_x(transform_type) as usize;
        let cy = covered_blocks_y(transform_type) as usize;
        if cx == 1 && cy == 1 {
            proof {
                lemma_merge_rows_noop(start, rule, ac_x@, ac_y@, ac_b@, w, h, transform_id, h);
            }
            k = k + 1;
            continue;
        }
        let budget: u64 = match rule {
            MergeRule::AllZero => 0,
            MergeRule::EnergyBudget(per_block) => {
                proof {
                    assert(priority@[k as int] == transform_id);
                    assert(cx * cy <= 1024) by (nonlinear_arith)
                        requires
                            cx <= 32,
                            cy <= 32,
                    ;
                }
                per_block * ((cx * cy) as u64)
            },
        };
        let mut by: usize = 0;
        while by < bh
            invariant
                by <= bh,
                k < priority@.len(),
                transform_id == priority@[k as int],
                transform_id < 27,
                cx == spec_covered_x(spec_type_of_id(transform_id as int)),
                cy == spec_covered_y(spec_type_of_id(transform_id as int)),
                1 <= cx <= 32,
                1 <= cy <= 32,
                !(cx == 1 && cy == 1),
                rule matches MergeRule::EnergyBudget(per_block) ==> budget == per_block * (cx * cy),
                w == bw,
                h == bh,
                ax_len == ac_x@.len(),
                ac_x@.len() >= bw * bh * 64,
                ac_y@.len() >= bw * bh * 64,
                ac_b@.len() >= bw * bh * 64,
                transform_map@.len() == bw * bh,
                covered@.len() == bw * bh,
                (transform_map@, covered@) == spec_merge_rows(
                    start,
                    rule,
                    ac_x@,
                    ac_y@,
                    ac_b@,
                    w,
                    h,
                    transform_id,
                    by as int,
                ),
            decreases bh - by,
        {
            let mut bx: usize = 0;
            while bx < bw
                invariant
                    bx <= bw,
                    by < bh,
                    transform_id < 27,
                    cx == spec_covered_x(spec_type_of_id(transform_id as int)),
                    cy == spec_covered_y(spec_type_of_id(transform_id as int)),
                    1 <= cx <= 32,
                    1 <= cy <= 32,
                    !(cx == 1 && cy == 1),
                    rule matches MergeRule::EnergyBudget(per_block) ==> budget == per_block * (cx
                        * cy),
                    w == bw,
                    h == bh,
                    ax_len == ac_x@.len(),
                    ac_x@.len() >= bw * bh * 64,
                    ac_y@.len() >= bw * bh * 64,
                    ac_b@.len() >= bw * bh * 64,
                    transform_map@.len() == bw * bh,
                    covered@.len() == bw * bh,
                    (transform_map@, covered@) == spec_merge_cols(
                        spec_merge_rows(
                            start,
                            rule,
                            ac_x@,
                            ac_y@,
                            ac_b@,
                            w,
                            h,
                            transform_id,
                            by as int,
                        ),
                        rule,
                        ac_x@,
                        ac_y@,
                        ac_b@,
                        w,
                        h,
                        transform_id,
                        by as int,
                        bx as int,
                    ),
                decreases bw - bx,
            {
                proof {
                    assert(bw * 64 <= bw * bh * 64 && bh * 64 <= bw * bh * 64) by (nonlinear_arith)
                        requires
                            bx < bw,
                            by < bh,
                    ;
                }
                if bx + cx > bw || by + cy > bh || bx / 32 != (bx + cx - 1) / 32 || by / 32 != (by
                    + cy - 1) / 32 {
                    bx = bx + 1;
                    continue;
                }
                if !region_free(&covered, bw, bh, bx, by, cx, cy) {
                    bx = bx + 1;
                    continue;
                }
                proof {
                    assert(((by + cy - 1) * bw + bx + cx) * 64 <= bw * bh * 64) by (nonlinear_arith)
                        requires
                            bx + cx <= bw,
                            by + cy <= bh,
                            cy >= 1,
                    ;
                    assert(cy * cx * 63 * spec_max_abs() <= u64::MAX) by (nonlinear_arith)
                        requires
                            1 <= cx <= 32,
                            1 <= cy <= 32,
                    ;
                }
                let accept = match rule {
                    MergeRule::AllZero => quantized_transform_region_ac_all_zero(
                        ac_x,
                        bw,
                        bx,
                        by,
                        cx,
                        cy,
                    ) && quantized_transform_region_ac_all_zero(ac_y, bw, bx, by, cx, cy)
                        && quantized_transform_region_ac_all_zero(ac_b, bw, bx, by, cx, cy),
                    MergeRule::EnergyBudget(_) => {
                        let energy = quantized_transform_region_abs_sum(ac_x, bw, bx, by, cx, cy)
                            + quantized_transform_region_abs_sum(ac_y, bw, bx, by, cx, cy)
                            + quantized_transform_region_abs_sum(ac_b, bw, bx, by, cx, cy);
                        energy <= budget
                    },
                };
                if !accept {
                    bx = bx + 1;
                    continue;
                }
                place_region(&mut transform_map, &mut covered, bw, bh, bx, by, cx, cy, transform_id);
                bx = bx + 1;
            }
            by = by + 1;
        }
        k = k + 1;
    }
    transform_map
}

} // verus!

verus! {

/// Merges all-zero regions into larger transforms: for each transform id of
/// `transform_priority` in turn, every raster position where that transform
/// fits the grid and one 32x32-block group, overlaps no earlier merge, and
/// has only zero AC coefficients in all three channels becomes that transform.
/// Ids that name no transform, and 8x8-sized transforms, are skipped.
pub fn build_zero_merge_transform_map(
    ac_x: &[i32],
    ac_y: &[i32],
    ac_b: &[i32],
    bw: usize,
    bh: usize,
    transform_priority: &[u8],
) -> (r: Vec<u8>)
    requires
        ac_x@.len() >= bw * bh * 64,
        ac_y@.len() >= bw * bh * 64,
        ac_b@.len() >= bw * bh * 64,
    ensures
        r@ == spec_greedy_merge_map(
            MergeRule::AllZero,
            ac_x@,
            ac_y@,
            ac_b@,
            bw as int,
            bh as int,
            transform_priority@,
        ),
{
    build_greedy_merge_map(ac_x, ac_y, ac_b, bw, bh, transform_priority, MergeRule::AllZero)
}

/// Merges low-energy regions into larger transforms, like
/// `build_zero_merge_transform_map` but accepting a region when the summed
/// absolute AC coefficients of its three channels are at most
/// `max_abs_sum_per_block` times its number of blocks.
pub fn build_low_energy_merge_transform_map(
    ac_x: &[i32],
    ac_y: &[i32],
    ac_b: &[i32],
    bw: usize,
    bh: usize,
    transform_priority: &[u8],
    max_abs_sum_per_block: u64,
) -> (r: Vec<u8>)
    requires
        ac_x@.len() >= bw * bh * 64,
        ac_y@.len() >= bw * bh * 64,
        ac_b@.len() >= bw * bh * 64,
        spec_budget_fits(MergeRule::EnergyBudget(max_abs_sum_per_block), transform_priority@),
    ensures
        r@ == spec_greedy_merge_map(
            MergeRule::EnergyBudget(max_abs_sum_per_block),
            ac_x@,
            ac_y@,
            ac_b@,
            bw as int,
            bh as int,
            transform_priority@,
        ),
{
    build_greedy_merge_map(
        ac_x,
        ac_y,
        ac_b,
        bw,
        bh,
        transform_priority,
        MergeRule::EnergyBudget(max_abs_sum_per_block),
    )
}


proof fn lemma_place_well_formed(
    state: (Seq<u8>, Seq<bool>),
    bw: int,
    bh: int,
    bx: int,
    by: int,
    cx: int,
    cy: int,
    id: u8,
)
    requires
        spec_well_formed_map(state.0, bw, bh),
        state.0.len() == bw * bh,
        id < 27,
        cx == spec_covered_x(spec_type_of_id(id as int)),
        cy == spec_covered_y(spec_type_of_id(id as int)),
        0 <= bx,
        0 <= by,
        bx + cx <= bw,
        by + cy <= bh,
    ensures
        spec_well_formed_map(spec_place(state, bw, bx, by, cx, cy, id).0, bw, bh),
        spec_place(state, bw, bx, by, cx, cy, id).0.len() == bw * bh,
{
    let old_map = state.0;
    let new_map = spec_place(state, bw, bx, by, cx, cy, id).0;
    assert(cx >= 1 && cy >= 1);
    assert forall|x: int, y: int|
        0 <= x < bw && 0 <= y < bh && spec_is_first_block(
            new_map[#[trigger] spec_region_block(bw, 0, 0, x, y)],
        ) implies spec_transform_fits(spec_entry_id(new_map[spec_region_block(bw, 0, 0, x, y)]), bw, bh, x, y) by {
        let i = spec_region_block(bw, 0, 0, x, y);
        lemma_region_in_grid(bw, bh, 0, 0, bw, bh, x, y);
        if spec_in_region_blocks(i, bw, bx, by, cx, cy) {
            if i == by * bw + bx {
                lemma_fundamental_div_mod_converse(i, bw, y, x);
                lemma_fundamental_div_mod_converse(i, bw, by, bx);
                assert(new_map[i] == (id + 128) as u8);
            } else {
                assert(new_map[i] == id);
            }
        } else {
            assert(new_map[i] == old_map[i]);
        }
    }
}

proof fn lemma_merge_cols_well_formed(
    state: (Seq<u8>, Seq<bool>),
    rule: MergeRule,
    ac_x: Seq<i32>,
    ac_y: Seq<i32>,
    ac_b: Seq<i32>,
    bw: int,
    bh: int,
    id: u8,
    by: int,
    n: int,
)
    requires
        spec_well_formed_map(state.0, bw, bh),
        state.0.len() == bw * bh,
        0 <= by,
    ensures
        spec_well_formed_map(spec_merge_cols(state, rule, ac_x, ac_y, ac_b, bw, bh, id, by, n).0, bw, bh),
        spec_merge_cols(state, rule, ac_x, ac_y, ac_b, bw, bh, id, by, n).0.len() == bw * bh,
    decreases n,
{
    if n > 0 {
        lemma_merge_cols_well_formed(state, rule, ac_x, ac_y, ac_b, bw, bh, id, by, n - 1);
        let prev = spec_merge_cols(state, rule, ac_x, ac_y, ac_b, bw, bh, id, by, n - 1);
        let t = spec_type_of_id(id as int);
        let cx = spec_covered_x(t) as int;
        let cy = spec_covered_y(t) as int;
        if !(id >= 27 || (cx == 1 && cy == 1)) && !(n - 1 + cx > bw || by + cy > bh
            || !spec_fits_group(n - 1, by, cx, cy)) && spec_region_free(prev.1, bw, n - 1, by, cx, cy)
            && spec_accepts(rule, ac_x, ac_y, ac_b, bw, n - 1, by, cx, cy) {
            lemma_place_well_formed(prev, bw, bh, n - 1, by, cx, cy, id);
        }
    }
}

proof fn lemma_merge_rows_well_formed(
    state: (Seq<u8>, Seq<bool>),
    rule: MergeRule,
    ac_x: Seq<i32>,
    ac_y: Seq<i32>,
    ac_b: Seq<i32>,
    bw: int,
    bh: int,
    id: u8,
    m: int,
)
    requires
        spec_well_formed_map(state.0, bw, bh),
        state.0.len() == bw * bh,
    ensures
        spec_well_formed_map(spec_merge_rows(state, rule, ac_x, ac_y, ac_b, bw, bh, id, m).0, bw, bh),
        spec_merge_rows(state, rule, ac_x, ac_y, ac_b, bw, bh, id, m).0.len() == bw * bh,
    decreases m,
{
    if m > 0 {
        lemma_merge_rows_well_formed(state, rule, ac_x, ac_y, ac_b, bw, bh, id, m - 1);
        lemma_merge_cols_well_formed(
            spec_merge_rows(state, rule, ac_x, ac_y, ac_b, bw, bh, id, m - 1),
            rule,
            ac_x,
            ac_y,
            ac_b,
            bw,
            bh,
            id,
            m - 1,
            bw,
        );
    }
}

proof fn lemma_merge_priorities_well_formed(
    rule: MergeRule,
    ac_x: Seq<i32>,
    ac_y: Seq<i32>,
    ac_b: Seq<i32>,
    bw: int,
    bh: int,
    priority: Seq<u8>,
    k: int,
)
    requires
        0 <= bw,
        0 <= bh,
    ensures
        spec_well_formed_map(spec_merge_priorities(rule, ac_x, ac_y, ac_b, bw, bh, priority, k).0, bw, bh),
        spec_merge_priorities(rule, ac_x, ac_y, ac_b, bw, bh, priority, k).0.len() == bw * bh,
    decreases k,
{
    if k > 0 {
        lemma_merge_priorities_well_formed(rule, ac_x, ac_y, ac_b, bw, bh, priority, k - 1);
        lemma_merge_rows_well_formed(
            spec_merge_priorities(rule, ac_x, ac_y, ac_b, bw, bh, priority, k - 1),
            rule,
            ac_x,
            ac_y,
            ac_b,
            bw,
            bh,
            priority[k - 1],
            bh,
        );
    } else {
        assert(0 <= bw * bh) by (nonlinear_arith)
            requires
                0 <= bw,
                0 <= bh,
        ;
        let map = spec_merge_priorities(rule, ac_x, ac_y, ac_b, bw, bh, priority, k).0;
        assert forall|x: int, y: int|
            0 <= x < bw && 0 <= y < bh && spec_is_first_block(map[#[trigger] spec_region_block(bw, 0, 0, x, y)])
            implies spec_transform_fits(spec_entry_id(map[spec_region_block(bw, 0, 0, x, y)]), bw, bh, x, y) by {
            lemma_region_in_grid(bw, bh, 0, 0, bw, bh, x, y);
        }
    }
}

/// A greedily merged transform map is well formed: each of its first-block
/// entries names a transform that fits the grid.
pub proof fn lemma_merge_map_well_formed(
    rule: MergeRule,
    ac_x: Seq<i32>,
    ac_y: Seq<i32>,
    ac_b: Seq<i32>,
    bw: int,
    bh: int,
    priority: Seq<u8>,
)
    requires
        0 <= bw,
        0 <= bh,
    ensures
        spec_well_formed_map(spec_greedy_merge_map(rule, ac_x, ac_y, ac_b, bw, bh, priority), bw, bh),
        spec_greedy_merge_map(rule, ac_x, ac_y, ac_b, bw, bh, priority).len() == bw * bh,
{
    lemma_merge_priorities_well_formed(rule, ac_x, ac_y, ac_b, bw, bh, priority, priority.len() as int);
}


/// Every entry of `map` is DCT8 or belongs to a transform larger than one block.
pub open spec fn spec_only_multi_block(map: Seq<u8>) -> bool {
    forall|i: int|
        0 <= i < map.len() ==> {
            let id = spec_entry_id(#[trigger] map[i]);
            id == 0 || !(spec_covered_x(spec_type_of_id(id as int)) == 1 && spec_covered_y(
                spec_type_of_id(id as int),
            ) == 1)
        }
}

proof fn lemma_merge_cols_multi(
    state: (Seq<u8>, Seq<bool>),
    rule: MergeRule,
    ac_x: Seq<i32>,
    ac_y: Seq<i32>,
    ac_b: Seq<i32>,
    bw: int,
    bh: int,
    id: u8,
    by: int,
    n: int,
)
    requires
        spec_only_multi_block(state.0),
    ensures
        spec_only_multi_block(spec_merge_cols(state, rule, ac_x, ac_y, ac_b, bw, bh, id, by, n).0),
    decreases n,
{
    if n > 0 {
        lemma_merge_cols_multi(state, rule, ac_x, ac_y, ac_b, bw, bh, id, by, n - 1);
        let prev = spec_merge_cols(state, rule, ac_x, ac_y, ac_b, bw, bh, id, by, n - 1);
        let next = spec_merge_cols(state, rule, ac_x, ac_y, ac_b, bw, bh, id, by, n);
        let t = spec_type_of_id(id as int);
        if next != prev {
            assert(id < 27 && !(spec_covered_x(t) == 1 && spec_covered_y(t) == 1));
            assert forall|i: int| 0 <= i < next.0.len() implies {
                let e = spec_entry_id(#[trigger] next.0[i]);
                e == 0 || !(spec_covered_x(spec_type_of_id(e as int)) == 1 && spec_covered_y(
                    spec_type_of_id(e as int),
                ) == 1)
            } by {
                if next.0[i] != prev.0[i] {
                    assert(spec_entry_id(next.0[i]) == id);
                }
            }
        }
    }
}

proof fn lemma_merge_rows_multi(
    state: (Seq<u8>, Seq<bool>),
    rule: MergeRule,
    ac_x: Seq<i32>,
    ac_y: Seq<i32>,
    ac_b: Seq<i32>,
    bw: int,
    bh: int,
    id: u8,
    m: int,
)
    requires
        spec_only_multi_block(state.0),
    ensures
        spec_only_multi_block(spec_merge_rows(state, rule, ac_x, ac_y, ac_b, bw, bh, id, m).0),
    decreases m,
{
    if m > 0 {
        lemma_merge_rows_multi(state, rule, ac_x, ac_y, ac_b, bw, bh, id, m - 1);
        lemma_merge_cols_multi(
            spec_merge_rows(state, rule, ac_x, ac_y, ac_b, bw, bh, id, m - 1),
            rule,
            ac_x,
            ac_y,
            ac_b,
            bw,
            bh,
            id,
            m - 1,
            bw,
        );
    }
}

proof fn lemma_merge_priorities_multi(
    rule: MergeRule,
    ac_x: Seq<i32>,
    ac_y: Seq<i32>,
    ac_b: Seq<i32>,
    bw: int,
    bh: int,
    priority: Seq<u8>,
    k: int,
)
    ensures
        spec_only_multi_block(spec_merge_priorities(rule, ac_x, ac_y, ac_b, bw, bh, priority, k).0),
    decreases k,
{
    if k > 0 {
        lemma_merge_priorities_multi(rule, ac_x, ac_y, ac_b, bw, bh, priority, k - 1);
        lemma_merge_rows_multi(
            spec_merge_priorities(rule, ac_x, ac_y, ac_b, bw, bh, priority, k - 1),
            rule,
            ac_x,
            ac_y,
            ac_b,
            bw,
            bh,
            priority[k - 1],
            bh,
        );
    }
}

/// A greedy merge only ever places transforms larger than one block: every
/// entry of a merged map is DCT8 or part of such a transform.
pub proof fn lemma_merge_map_only_multi_block(
    rule: MergeRule,
    ac_x: Seq<i32>,
    ac_y: Seq<i32>,
    ac_b: Seq<i32>,
    bw: int,
    bh: int,
    priority: Seq<u8>,
)
    ensures
        spec_only_multi_block(spec_greedy_merge_map(rule, ac_x, ac_y, ac_b, bw, bh, priority)),
{
    lemma_merge_priorities_multi(rule, ac_x, ac_y, ac_b, bw, bh, priority, priority.len() as int);
}

/// A greedily merged transform map is accepted downstream: clearing the AC
/// coefficients of its non-DCT8x8 transforms never fails, and neither does
/// tokenizing the whole grid with it.
pub proof fn lemma_merge_map_accepted(
    rule: MergeRule,
    ac_x: Seq<i32>,
    ac_y: Seq<i32>,
    ac_b: Seq<i32>,
    bw: int,
    bh: int,
    priority: Seq<u8>,
    ac: Seq<i32>,
    region: HfRegion,
)
    requires
        0 <= bw,
        0 <= bh,
        region.map == spec_greedy_merge_map(rule, ac_x, ac_y, ac_b, bw, bh, priority),
        region.full_bw == bw,
        region.rw == bw,
        region.rh == bh,
        region.x0 == 0,
        region.y0 == 0,
    ensures
        spec_zero_non_dct8(ac, spec_greedy_merge_map(rule, ac_x, ac_y, ac_b, bw, bh, priority), bw, bh).1 is None,
        spec_tokenize_region(region) is Ok,
{
    lemma_merge_map_well_formed(rule, ac_x, ac_y, ac_b, bw, bh, priority);
    lemma_zero_non_dct8_accepts_well_formed(
        ac,
        spec_greedy_merge_map(rule, ac_x, ac_y, ac_b, bw, bh, priority),
        bw,
        bh,
    );
    lemma_tokenize_accepts_well_formed(region);
}


proof fn lemma_abs_prefix_zero(ac: Seq<i32>, base: int, j: int)
    ensures
        spec_abs_prefix(ac, base, j) >= 0,
        (spec_abs_prefix(ac, base, j) == 0) == (forall|t: int| 1 <= t < j ==> #[trigger] ac[base + t] == 0),
    decreases j,
{
    if j > 1 {
        lemma_abs_prefix_zero(ac, base, j - 1);
        if spec_abs_prefix(ac, base, j) == 0 {
            assert forall|t: int| 1 <= t < j implies #[trigger] ac[base + t] == 0 by {
                if t < j - 1 {
                    assert(1 <= t < j - 1);
                }
            }
        }
    }
}

proof fn lemma_row_sum_zero(ac: Seq<i32>, bw: int, bx: int, by: int, iy: int, n: int)
    ensures
        spec_region_row_abs_sum(ac, bw, bx, by, iy, n) >= 0,
        (spec_region_row_abs_sum(ac, bw, bx, by, iy, n) == 0) == (forall|ix: int|
            0 <= ix < n ==> #[trigger] spec_block_ac_all_zero(ac, spec_region_block(bw, bx, by, ix, iy))),
    decreases n,
{
    if n > 0 {
        lemma_row_sum_zero(ac, bw, bx, by, iy, n - 1);
        let b = spec_region_block(bw, bx, by, n - 1, iy);
        lemma_abs_prefix_zero(ac, b * 64, 64);
        assert(spec_block_ac_all_zero(ac, b) == (forall|t: int| 1 <= t < 64 ==> #[trigger] ac[b * 64 + t] == 0));
    }
}

proof fn lemma_region_sum_zero(ac: Seq<i32>, bw: int, bx: int, by: int, cx: int, rows: int)
    ensures
        spec_region_abs_sum(ac, bw, bx, by, cx, rows) >= 0,
        (spec_region_abs_sum(ac, bw, bx, by, cx, rows) == 0) == spec_region_ac_all_zero(ac, bw, bx, by, cx, rows),
    decreases rows,
{
    if rows > 0 {
        lemma_region_sum_zero(ac, bw, bx, by, cx, rows - 1);
        lemma_row_sum_zero(ac, bw, bx, by, rows - 1, cx);
        if spec_region_abs_sum(ac, bw, bx, by, cx, rows) == 0 {
            assert forall|ix: int, iy: int| 0 <= ix < cx && 0 <= iy < rows implies #[trigger] spec_block_ac_all_zero(
                ac,
                spec_region_block(bw, bx, by, ix, iy),
            ) by {
                if iy < rows - 1 {
                    assert(spec_region_ac_all_zero(ac, bw, bx, by, cx, rows - 1));
                }
            }
        }
        if spec_region_ac_all_zero(ac, bw, bx, by, cx, rows) {
            assert(spec_region_ac_all_zero(ac, bw, bx, by, cx, rows - 1));
            assert forall|ix: int| 0 <= ix < cx implies #[trigger] spec_block_ac_all_zero(
                ac,
                spec_region_block(bw, bx, by, ix, rows - 1),
            ) by {}
        }
    }
}

proof fn lemma_zero_budget_accepts(
    ac_x: Seq<i32>,
    ac_y: Seq<i32>,
    ac_b: Seq<i32>,
    bw: int,
    bx: int,
    by: int,
    cx: int,
    cy: int,
)
    requires
        cx >= 0,
        cy >= 0,
    ensures
        spec_accepts(MergeRule::EnergyBudget(0), ac_x, ac_y, ac_b, bw, bx, by, cx, cy) == spec_accepts(
            MergeRule::AllZero,
            ac_x,
            ac_y,
            ac_b,
            bw,
            bx,
            by,
            cx,
            cy,
        ),
{
    lemma_region_sum_zero(ac_x, bw, bx, by, cx, cy);
    lemma_region_sum_zero(ac_y, bw, bx, by, cx, cy);
    lemma_region_sum_zero(ac_b, bw, bx, by, cx, cy);
    assert(0u64 * (cx * cy) == 0);
}

proof fn lemma_zero_budget_cols(
    state: (Seq<u8>, Seq<bool>),
    ac_x: Seq<i32>,
    ac_y: Seq<i32>,
    ac_b: Seq<i32>,
    bw: int,
    bh: int,
    id: u8,
    by: int,
    n: int,
)
    ensures
        spec_merge_cols(state, MergeRule::EnergyBudget(0), ac_x, ac_y, ac_b, bw, bh, id, by, n)
            == spec_merge_cols(state, MergeRule::AllZero, ac_x, ac_y, ac_b, bw, bh, id, by, n),
    decreases n,
{
    if n > 0 {
        lemma_zero_budget_cols(state, ac_x, ac_y, ac_b, bw, bh, id, by, n - 1);
        let t = spec_type_of_id(id as int);
        lemma_zero_budget_accepts(
            ac_x,
            ac_y,
            ac_b,
            bw,
            n - 1,
            by,
            spec_covered_x(t) as int,
            spec_covered_y(t) as int,
        );
    }
}

proof fn lemma_zero_budget_rows(
    state: (Seq<u8>, Seq<bool>),
    ac_x: Seq<i32>,
    ac_y: Seq<i32>,
    ac_b: Seq<i32>,
    bw: int,
    bh: int,
    id: u8,
    m: int,
)
    ensures
        spec_merge_rows(state, MergeRule::EnergyBudget(0), ac_x, ac_y, ac_b, bw, bh, id, m)
            == spec_merge_rows(state, MergeRule::AllZero, ac_x, ac_y, ac_b, bw, bh, id, m),
    decreases m,
{
    if m > 0 {
        lemma_zero_budget_rows(state, ac_x, ac_y, ac_b, bw, bh, id, m - 1);
        lemma_zero_budget_cols(
            spec_merge_rows(state, MergeRule::AllZero, ac_x, ac_y, ac_b, bw, bh, id, m - 1),
            ac_x,
            ac_y,
            ac_b,
            bw,
            bh,
            id,
            m - 1,
            bw,
        );
    }
}

proof fn lemma_zero_budget_priorities(
    ac_x: Seq<i32>,
    ac_y: Seq<i32>,
    ac_b: Seq<i32>,
    bw: int,
    bh: int,
    priority: Seq<u8>,
    k: int,
)
    ensures
        spec_merge_priorities(MergeRule::EnergyBudget(0), ac_x, ac_y, ac_b, bw, bh, priority, k)
            == spec_merge_priorities(MergeRule::AllZero, ac_x, ac_y, ac_b, bw, bh, priority, k),
    decreases k,
{
    if k > 0 {
        lemma_zero_budget_priorities(ac_x, ac_y, ac_b, bw, bh, priority, k - 1);
        lemma_zero_budget_rows(
            spec_merge_priorities(MergeRule::AllZero, ac_x, ac_y, ac_b, bw, bh, priority, k - 1),
            ac_x,
            ac_y,
            ac_b,
            bw,
            bh,
            priority[k - 1],
            bh,
        );
    }
}

/// A low-energy merge with a budget of zero per block is the all-zero
/// merge: a region's summed absolute AC coefficients are at most zero
/// exactly when all of them are zero.
pub proof fn lemma_zero_budget_merge_is_zero_merge(
    ac_x: Seq<i32>,
    ac_y: Seq<i32>,
    ac_b: Seq<i32>,
    bw: int,
    bh: int,
    priority: Seq<u8>,
)
    ensures
        spec_greedy_merge_map(MergeRule::EnergyBudget(0), ac_x, ac_y, ac_b, bw, bh, priority)
            == spec_greedy_merge_map(MergeRule::AllZero, ac_x, ac_y, ac_b, bw, bh, priority),
{
    lemma_zero_budget_priorities(ac_x, ac_y, ac_b, bw, bh, priority, priority.len() as int);
}


/// What the greedy merge keeps while it places transforms: the map is a
/// tiling, and every block not covered yet is a DCT8x8 first block.
pub open spec fn spec_merge_inv(state: (Seq<u8>, Seq<bool>), bw: int, bh: int) -> bool {
    &&& state.0.len() == bw * bh
    &&& state.1.len() == bw * bh
    &&& spec_tiling(state.0, bw, bh)
    &&& forall|i: int| 0 <= i < bw * bh && !state.1[i] ==> #[trigger] state.0[i] == spec_default_entry()
}

pub(crate) proof fn lemma_grid_index(bw: int, bh: int, x: int, y: int)
    requires
        spec_in_grid(bw, bh, x, y),
    ensures
        0 <= y * bw + x < bw * bh,
{
    lemma_region_in_grid(bw, bh, 0, 0, bw, bh, x, y);
}

pub(crate) proof fn lemma_grid_coords_unique(bw: int, bh: int, x: int, y: int, x2: int, y2: int)
    requires
        spec_in_grid(bw, bh, x, y),
        spec_in_grid(bw, bh, x2, y2),
        y * bw + x == y2 * bw + x2,
    ensures
        x == x2 && y == y2,
{
    lemma_region_blocks_distinct(bw, 0, 0, x, y, x2, y2);
}

#[verifier::spinoff_prover]
#[verifier::rlimit(40)]
proof fn lemma_in_region_coords(bw: int, bh: int, bx: int, by: int, cx: int, cy: int, x: int, y: int)
    requires
        spec_in_grid(bw, bh, x, y),
        0 <= bx,
        0 <= by,
        bx + cx <= bw,
        by + cy <= bh,
    ensures
        spec_in_region_blocks(y * bw + x, bw, bx, by, cx, cy) == (bx <= x < bx + cx && by <= y < by + cy),
{
    if bx <= x < bx + cx && by <= y < by + cy {
        assert(y * bw + x == spec_region_block(bw, bx, by, x - bx, y - by));
    }
    if spec_in_region_blocks(y * bw + x, bw, bx, by, cx, cy) {
        let (ix, iy) = choose|ix: int, iy: int|
            0 <= ix < cx && 0 <= iy < cy && y * bw + x == #[trigger] spec_region_block(bw, bx, by, ix, iy);
        lemma_grid_coords_unique(bw, bh, x, y, bx + ix, by + iy);
    }
}

/// A DCT8x8 first block covers exactly itself.
proof fn lemma_default_covers(map: Seq<u8>, bw: int, fx: int, fy: int, x: int, y: int)
    requires
        map[fy * bw + fx] == spec_default_entry(),
    ensures
        spec_covers(map, bw, fx, fy, x, y) == (x == fx && y == fy),
{
    assert(spec_entry_id(spec_default_entry()) == 0);
    assert(spec_covered_x(spec_type_of_id(0)) == 1);
    assert(spec_covered_y(spec_type_of_id(0)) == 1);
}

/// Every entry of the first `n` is the first block of a known one-block
/// transform.
pub open spec fn spec_one_block_entries(map: Seq<u8>, n: int) -> bool {
    forall|i: int|
        0 <= i < n ==> {
            &&& spec_is_first_block(#[trigger] map[i])
            &&& spec_entry_id(map[i]) < 27
            &&& spec_covered_x(spec_type_of_id(spec_entry_id(map[i]) as int)) == 1
            &&& spec_covered_y(spec_type_of_id(spec_entry_id(map[i]) as int)) == 1
        }
}

/// A map of one-block transforms only tiles the grid, each block by itself.
#[verifier::spinoff_prover]
#[verifier::rlimit(40)]
pub(crate) proof fn lemma_one_block_map_tiles(map: Seq<u8>, bw: int, bh: int)
    requires
        bw >= 0,
        bh >= 0,
        map.len() == bw * bh,
        spec_one_block_entries(map, bw * bh),
    ensures
        spec_tiling(map, bw, bh),
{
    assert forall|fx: int, fy: int, x: int, y: int| spec_in_grid(bw, bh, fx, fy) implies (#[trigger] spec_covers(
        map,
        bw,
        fx,
        fy,
        x,
        y,
    ) == (x == fx && y == fy)) by {
        lemma_grid_index(bw, bh, fx, fy);
        assert(spec_is_first_block(map[fy * bw + fx]));
    }
    assert forall|x: int, y: int| spec_in_grid(bw, bh, x, y) implies exists|fx: int, fy: int|
        spec_in_grid(bw, bh, fx, fy) && #[trigger] spec_covers(map, bw, fx, fy, x, y) by {
        assert(spec_covers(map, bw, x, y, x, y));
    }
    assert forall|x: int, y: int|
        0 <= x < bw && 0 <= y < bh && spec_is_first_block(map[#[trigger] spec_region_block(bw, 0, 0, x, y)])
        implies spec_transform_fits(spec_entry_id(map[spec_region_block(bw, 0, 0, x, y)]), bw, bh, x, y) by {
        lemma_grid_index(bw, bh, x, y);
        assert(spec_is_first_block(map[y * bw + x]));
    }
}

#[verifier::spinoff_prover]
#[verifier::rlimit(40)]
proof fn lemma_merge_inv_start(bw: int, bh: int)
    requires
        bw >= 0,
        bh >= 0,
    ensures
        spec_merge_inv(
            (Seq::new((bw * bh) as nat, |i: int| spec_default_entry()), Seq::new((bw * bh) as nat, |i: int| false)),
            bw,
            bh,
        ),
{
    assert(bw * bh >= 0) by (nonlinear_arith)
        requires
            bw >= 0,
            bh >= 0,
    ;
    let map = Seq::new((bw * bh) as nat, |i: int| spec_default_entry());
    assert(spec_entry_id(spec_default_entry()) == 0);
    assert(spec_covered_x(spec_type_of_id(0)) == 1);
    assert(spec_covered_y(spec_type_of_id(0)) == 1);
    lemma_one_block_map_tiles(map, bw, bh);
}

/// Who covers a block after a placement: the placed transform covers its own
/// blocks, every other block of the region covers nothing, and the rest of
/// the map is as before.
#[verifier::spinoff_prover]
#[verifier::rlimit(40)]
proof fn lemma_place_covers(
    state: (Seq<u8>, Seq<bool>),
    bw: int,
    bh: int,
    bx: int,
    by: int,
    cx: int,
    cy: int,
    id: u8,
    fx: int,
    fy: int,
    x: int,
    y: int,
)
    requires
        state.0.len() == bw * bh,
        id < 27,
        cx == spec_covered_x(spec_type_of_id(id as int)),
        cy == spec_covered_y(spec_type_of_id(id as int)),
        0 <= bx,
        0 <= by,
        bx + cx <= bw,
        by + cy <= bh,
        spec_in_grid(bw, bh, fx, fy),
    ensures
        ({
            let m = spec_place(state, bw, bx, by, cx, cy, id).0;
            &&& (bx <= fx < bx + cx && by <= fy < by + cy) ==> (spec_covers(m, bw, fx, fy, x, y) == (fx == bx
                && fy == by && bx <= x < bx + cx && by <= y < by + cy))
            &&& !(bx <= fx < bx + cx && by <= fy < by + cy) ==> (spec_covers(m, bw, fx, fy, x, y)
                == spec_covers(state.0, bw, fx, fy, x, y))
            &&& m[fy * bw + fx] == if bx <= fx < bx + cx && by <= fy < by + cy {
                if fx == bx && fy == by {
                    (id + 128) as u8
                } else {
                    id
                }
            } else {
                state.0[fy * bw + fx]
            }
        }),
        spec_entry_id((id + 128) as u8) == id,
        spec_entry_id(id) == id,
{
    lemma_grid_index(bw, bh, fx, fy);
    lemma_in_region_coords(bw, bh, bx, by, cx, cy, fx, fy);
    if fy * bw + fx == by * bw + bx {
        lemma_grid_coords_unique(bw, bh, fx, fy, bx, by);
    }
    assert(spec_entry_id((id + 128) as u8) == id);
    assert(spec_is_first_block((id + 128) as u8));
    assert(!spec_is_first_block(id));
}

#[verifier::spinoff_prover]
#[verifier::rlimit(40)]
proof fn lemma_place_region_default(
    state: (Seq<u8>, Seq<bool>),
    bw: int,
    bh: int,
    bx: int,
    by: int,
    cx: int,
    cy: int,
    id: u8,
)
    requires
        spec_merge_inv(state, bw, bh),
        id < 27,
        cx == spec_covered_x(spec_type_of_id(id as int)),
        cy == spec_covered_y(spec_type_of_id(id as int)),
        0 <= bx,
        0 <= by,
        bx + cx <= bw,
        by + cy <= bh,
        spec_region_free(state.1, bw, bx, by, cx, cy),
    ensures
        forall|x: int, y: int|
            spec_in_grid(bw, bh, x, y) && bx <= x < bx + cx && by <= y < by + cy ==> #[trigger] spec_covers(
                state.0,
                bw,
                x,
                y,
                x,
                y,
            ),
{
    assert forall|x: int, y: int|
        spec_in_grid(bw, bh, x, y) && bx <= x < bx + cx && by <= y < by + cy implies #[trigger] spec_covers(
        state.0,
        bw,
        x,
        y,
        x,
        y,
    ) by {
        assert(y * bw + x == spec_region_block(bw, bx, by, x - bx, y - by));
        lemma_grid_index(bw, bh, x, y);
        assert(state.0[y * bw + x] == spec_default_entry());
        lemma_default_covers(state.0, bw, x, y, x, y);
    }
}

#[verifier::spinoff_prover]
#[verifier::rlimit(40)]
proof fn lemma_place_owned(
    state: (Seq<u8>, Seq<bool>),
    bw: int,
    bh: int,
    bx: int,
    by: int,
    cx: int,
    cy: int,
    id: u8,
)
    requires
        spec_merge_inv(state, bw, bh),
        id < 27,
        cx == spec_covered_x(spec_type_of_id(id as int)),
        cy == spec_covered_y(spec_type_of_id(id as int)),
        0 <= bx,
        0 <= by,
        bx + cx <= bw,
        by + cy <= bh,
        spec_region_free(state.1, bw, bx, by, cx, cy),
    ensures
        forall|x: int, y: int|
            spec_in_grid(bw, bh, x, y) ==> exists|fx: int, fy: int|
                spec_in_grid(bw, bh, fx, fy) && #[trigger] spec_covers(spec_place(state, bw, bx, by, cx, cy, id).0, bw, fx, fy, x, y),
{
    let old = state.0;
    let m = spec_place(state, bw, bx, by, cx, cy, id).0;
    assert(cx >= 1 && cy >= 1);
    assert forall|x: int, y: int| spec_in_grid(bw, bh, x, y) implies exists|fx: int, fy: int|
        spec_in_grid(bw, bh, fx, fy) && #[trigger] spec_covers(m, bw, fx, fy, x, y) by {
        if bx <= x < bx + cx && by <= y < by + cy {
            lemma_place_covers(state, bw, bh, bx, by, cx, cy, id, bx, by, x, y);
            assert(spec_covers(m, bw, bx, by, x, y));
        } else {
            let (fx, fy) = choose|fx: int, fy: int|
                spec_in_grid(bw, bh, fx, fy) && #[trigger] spec_covers(old, bw, fx, fy, x, y);
            lemma_place_covers(state, bw, bh, bx, by, cx, cy, id, fx, fy, x, y);
            if bx <= fx < bx + cx && by <= fy < by + cy {
                lemma_place_region_default(state, bw, bh, bx, by, cx, cy, id);
                assert(spec_covers(old, bw, fx, fy, fx, fy));
                lemma_grid_index(bw, bh, fx, fy);
                assert(fy * bw + fx == spec_region_block(bw, bx, by, fx - bx, fy - by));
                assert(old[fy * bw + fx] == spec_default_entry());
                lemma_default_covers(old, bw, fx, fy, x, y);
            }
            assert(spec_covers(m, bw, fx, fy, x, y));
        }
    }
}

#[verifier::spinoff_prover]
#[verifier::rlimit(40)]
proof fn lemma_place_unique(
    state: (Seq<u8>, Seq<bool>),
    bw: int,
    bh: int,
    bx: int,
    by: int,
    cx: int,
    cy: int,
    id: u8,
)
    requires
        spec_merge_inv(state, bw, bh),
        id < 27,
        cx == spec_covered_x(spec_type_of_id(id as int)),
        cy == spec_covered_y(spec_type_of_id(id as int)),
        0 <= bx,
        0 <= by,
        bx + cx <= bw,
        by + cy <= bh,
        spec_region_free(state.1, bw, bx, by, cx, cy),
    ensures
        forall|x: int, y: int, fx: int, fy: int, gx: int, gy: int|
            #![trigger spec_covers(spec_place(state, bw, bx, by, cx, cy, id).0, bw, fx, fy, x, y), spec_covers(spec_place(state, bw, bx, by, cx, cy, id).0, bw, gx, gy, x, y)]
            spec_in_grid(bw, bh, x, y) && spec_in_grid(bw, bh, fx, fy) && spec_in_grid(bw, bh, gx, gy)
                && spec_covers(spec_place(state, bw, bx, by, cx, cy, id).0, bw, fx, fy, x, y) && spec_covers(spec_place(state, bw, bx, by, cx, cy, id).0, bw, gx, gy, x, y) ==> fx == gx
                && fy == gy,
{
    let old = state.0;
    let m = spec_place(state, bw, bx, by, cx, cy, id).0;
    lemma_place_region_default(state, bw, bh, bx, by, cx, cy, id);
    assert forall|x: int, y: int, fx: int, fy: int, gx: int, gy: int|
        spec_in_grid(bw, bh, x, y) && spec_in_grid(bw, bh, fx, fy) && spec_in_grid(bw, bh, gx, gy)
            && #[trigger] spec_covers(m, bw, fx, fy, x, y) && #[trigger] spec_covers(m, bw, gx, gy, x, y)
        implies fx == gx && fy == gy by {
        lemma_place_covers(state, bw, bh, bx, by, cx, cy, id, fx, fy, x, y);
        lemma_place_covers(state, bw, bh, bx, by, cx, cy, id, gx, gy, x, y);
        if bx <= x < bx + cx && by <= y < by + cy {
            assert(spec_covers(old, bw, x, y, x, y));
        }
    }
}

#[verifier::spinoff_prover]
#[verifier::rlimit(40)]
proof fn lemma_place_same_id(
    state: (Seq<u8>, Seq<bool>),
    bw: int,
    bh: int,
    bx: int,
    by: int,
    cx: int,
    cy: int,
    id: u8,
)
    requires
        spec_merge_inv(state, bw, bh),
        id < 27,
        cx == spec_covered_x(spec_type_of_id(id as int)),
        cy == spec_covered_y(spec_type_of_id(id as int)),
        0 <= bx,
        0 <= by,
        bx + cx <= bw,
        by + cy <= bh,
        spec_region_free(state.1, bw, bx, by, cx, cy),
    ensures
        forall|x: int, y: int, fx: int, fy: int|
            spec_in_grid(bw, bh, x, y) && spec_in_grid(bw, bh, fx, fy) && #[trigger] spec_covers(
                spec_place(state, bw, bx, by, cx, cy, id).0,
                bw,
                fx,
                fy,
                x,
                y,
            ) && !(x == fx && y == fy) ==> spec_place(state, bw, bx, by, cx, cy, id).0[y * bw + x] == spec_entry_id(spec_place(state, bw, bx, by, cx, cy, id).0[fy * bw + fx]),
{
    let old = state.0;
    let m = spec_place(state, bw, bx, by, cx, cy, id).0;
    lemma_place_region_default(state, bw, bh, bx, by, cx, cy, id);
    assert forall|x: int, y: int, fx: int, fy: int|
        spec_in_grid(bw, bh, x, y) && spec_in_grid(bw, bh, fx, fy) && #[trigger] spec_covers(m, bw, fx, fy, x, y)
            && !(x == fx && y == fy) implies m[y * bw + x] == spec_entry_id(m[fy * bw + fx]) by {
        lemma_place_covers(state, bw, bh, bx, by, cx, cy, id, fx, fy, x, y);
        lemma_place_covers(state, bw, bh, bx, by, cx, cy, id, x, y, x, y);
        let f_in = bx <= fx < bx + cx && by <= fy < by + cy;
        let x_in = bx <= x < bx + cx && by <= y < by + cy;
        if f_in {
            assert(fx == bx && fy == by && x_in);
            assert(m[y * bw + x] == id);
            assert(m[fy * bw + fx] == (id + 128) as u8);
        } else {
            assert(spec_covers(old, bw, fx, fy, x, y));
            if x_in {
                assert(spec_covers(old, bw, x, y, x, y));
                assert(false);
            }
            assert(m[y * bw + x] == old[y * bw + x]);
            assert(m[fy * bw + fx] == old[fy * bw + fx]);
            assert(old[y * bw + x] == spec_entry_id(old[fy * bw + fx]));
        }
    }
}

#[verifier::spinoff_prover]
#[verifier::rlimit(40)]
proof fn lemma_place_inv(
    state: (Seq<u8>, Seq<bool>),
    bw: int,
    bh: int,
    bx: int,
    by: int,
    cx: int,
    cy: int,
    id: u8,
)
    requires
        spec_merge_inv(state, bw, bh),
        id < 27,
        cx == spec_covered_x(spec_type_of_id(id as int)),
        cy == spec_covered_y(spec_type_of_id(id as int)),
        0 <= bx,
        0 <= by,
        bx + cx <= bw,
        by + cy <= bh,
        spec_region_free(state.1, bw, bx, by, cx, cy),
    ensures
        spec_merge_inv(spec_place(state, bw, bx, by, cx, cy, id), bw, bh),
{
    let ns = spec_place(state, bw, bx, by, cx, cy, id);
    let m = ns.0;
    lemma_place_well_formed(state, bw, bh, bx, by, cx, cy, id);
    lemma_place_owned(state, bw, bh, bx, by, cx, cy, id);
    lemma_place_unique(state, bw, bh, bx, by, cx, cy, id);
    lemma_place_same_id(state, bw, bh, bx, by, cx, cy, id);
    assert forall|i: int| 0 <= i < bw * bh && !ns.1[i] implies #[trigger] m[i] == spec_default_entry() by {
        assert(!spec_in_region_blocks(i, bw, bx, by, cx, cy));
        assert(!state.1[i]);
    }
}

#[verifier::spinoff_prover]
#[verifier::rlimit(40)]
proof fn lemma_merge_step_inv(
    state: (Seq<u8>, Seq<bool>),
    rule: MergeRule,
    ac_x: Seq<i32>,
    ac_y: Seq<i32>,
    ac_b: Seq<i32>,
    bw: int,
    bh: int,
    id: u8,
    bx: int,
    by: int,
)
    requires
        spec_merge_inv(state, bw, bh),
        0 <= bx,
        0 <= by,
    ensures
        spec_merge_inv(spec_merge_step(state, rule, ac_x, ac_y, ac_b, bw, bh, id, bx, by), bw, bh),
{
    let t = spec_type_of_id(id as int);
    let cx = spec_covered_x(t) as int;
    let cy = spec_covered_y(t) as int;
    if !(id >= 27 || (cx == 1 && cy == 1)) && !(bx + cx > bw || by + cy > bh || !spec_fits_group(bx, by, cx, cy))
        && spec_region_free(state.1, bw, bx, by, cx, cy) && spec_accepts(rule, ac_x, ac_y, ac_b, bw, bx, by, cx, cy) {
        lemma_place_inv(state, bw, bh, bx, by, cx, cy, id);
    }
}

proof fn lemma_merge_cols_inv(
    state: (Seq<u8>, Seq<bool>),
    rule: MergeRule,
    ac_x: Seq<i32>,
    ac_y: Seq<i32>,
    ac_b: Seq<i32>,
    bw: int,
    bh: int,
    id: u8,
    by: int,
    n: int,
)
    requires
        spec_merge_inv(state, bw, bh),
        0 <= by,
    ensures
        spec_merge_inv(spec_merge_cols(state, rule, ac_x, ac_y, ac_b, bw, bh, id, by, n), bw, bh),
    decreases n,
{
    if n > 0 {
        lemma_merge_cols_inv(state, rule, ac_x, ac_y, ac_b, bw, bh, id, by, n - 1);
        lemma_merge_step_inv(
            spec_merge_cols(state, rule, ac_x, ac_y, ac_b, bw, bh, id, by, n - 1),
            rule,
            ac_x,
            ac_y,
            ac_b,
            bw,
            bh,
            id,
            n - 1,
            by,
        );
    }
}

proof fn lemma_merge_rows_inv(
    state: (Seq<u8>, Seq<bool>),
    rule: MergeRule,
    ac_x: Seq<i32>,
    ac_y: Seq<i32>,
    ac_b: Seq<i32>,
    bw: int,
    bh: int,
    id: u8,
    m: int,
)
    requires
        spec_merge_inv(state, bw, bh),
    ensures
        spec_merge_inv(spec_merge_rows(state, rule, ac_x, ac_y, ac_b, bw, bh, id, m), bw, bh),
    decreases m,
{
    if m > 0 {
        lemma_merge_rows_inv(state, rule, ac_x, ac_y, ac_b, bw, bh, id, m - 1);
        lemma_merge_cols_inv(
            spec_merge_rows(state, rule, ac_x, ac_y, ac_b, bw, bh, id, m - 1),
            rule,
            ac_x,
            ac_y,
            ac_b,
            bw,
            bh,
            id,
            m - 1,
            bw,
        );
    }
}

proof fn lemma_merge_priorities_inv(
    rule: MergeRule,
    ac_x: Seq<i32>,
    ac_y: Seq<i32>,
    ac_b: Seq<i32>,
    bw: int,
    bh: int,
    priority: Seq<u8>,
    k: int,
)
    requires
        bw >= 0,
        bh >= 0,
    ensures
        spec_merge_inv(spec_merge_priorities(rule, ac_x, ac_y, ac_b, bw, bh, priority, k), bw, bh),
    decreases k,
{
    if k <= 0 {
        lemma_merge_inv_start(bw, bh);
    } else {
        lemma_merge_priorities_inv(rule, ac_x, ac_y, ac_b, bw, bh, priority, k - 1);
        lemma_merge_rows_inv(
            spec_merge_priorities(rule, ac_x, ac_y, ac_b, bw, bh, priority, k - 1),
            rule,
            ac_x,
            ac_y,
            ac_b,
            bw,
            bh,
            priority[k - 1],
            bh,
        );
    }
}

/// A greedily merged transform map tiles the grid: every block belongs to
/// exactly one transform, whose other blocks carry its id.
pub proof fn lemma_merge_map_tiles(
    rule: MergeRule,
    ac_x: Seq<i32>,
    ac_y: Seq<i32>,
    ac_b: Seq<i32>,
    bw: int,
    bh: int,
    priority: Seq<u8>,
)
    requires
        bw >= 0,
        bh >= 0,
    ensures
        spec_tiling(spec_greedy_merge_map(rule, ac_x, ac_y, ac_b, bw, bh, priority), bw, bh),
{
    lemma_merge_priorities_inv(rule, ac_x, ac_y, ac_b, bw, bh, priority, priority.len() as int);
}

} // verus!

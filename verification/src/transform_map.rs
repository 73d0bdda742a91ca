use vstd::prelude::*;
use crate::error::Error;
use vstd::arithmetic::div_mod::{lemma_fundamental_div_mod, lemma_fundamental_div_mod_converse};
use crate::transform::{
    covered_blocks_x, covered_blocks_y, spec_covered_x, spec_covered_y, spec_entry_id,
    spec_is_first_block, spec_type_of_id, split_transform_entry, HfTransformType,
    DCT8_FIRST_BLOCK_ENTRY, DCT8_TRANSFORM_ID,
};

verus! {

/// Value of a DCT8x8 entry of a transform map (a first block of an 8x8 transform).
pub open spec fn spec_default_entry() -> u8 {
    0x80u8
}

/// The transform map in which every block is its own DCT8x8.
pub fn build_default_transform_map(bw: usize, bh: usize) -> (r: Vec<u8>)
    requires
        bw * bh <= usize::MAX,
    ensures
        r@.len() == bw * bh,
        forall|i: int| 0 <= i < bw * bh ==> #[trigger] r@[i] == spec_default_entry(),
{
    let n = bw * bh;
    let mut map: Vec<u8> = Vec::new();
    let mut i: usize = 0;
    while i < n
        invariant
            i <= n,
            n == bw * bh,
            map@.len() == i,
            forall|j: int| 0 <= j < i ==> #[trigger] map@[j] == spec_default_entry(),
        decreases n - i,
    {
        map.push(DCT8_FIRST_BLOCK_ENTRY);
        i = i + 1;
    }
    map
}

/// All AC coefficients (positions 1..64) of block `block_idx` are zero.
pub open spec fn spec_block_ac_all_zero(ac: Seq<i32>, block_idx: int) -> bool {
    forall|j: int| 1 <= j < 64 ==> #[trigger] ac[block_idx * 64 + j] == 0
}

/// Whether every AC coefficient of block `block_idx` is zero.
pub fn quantized_block_ac_all_zero(ac: &[i32], block_idx: usize) -> (r: bool)
    requires
        block_idx * 64 + 64 <= ac@.len(),
    ensures
        r == spec_block_ac_all_zero(ac@, block_idx as int),
{
    let len = ac.len();
    let base = block_idx * 64;
    let mut j: usize = 1;
    while j < 64
        invariant
            1 <= j <= 64,
            base == block_idx * 64,
            base + 64 <= ac@.len(),
            forall|k: int| 1 <= k < j ==> #[trigger] ac@[block_idx * 64 + k] == 0,
        decreases 64 - j,
    {
        if ac[base + j] != 0 {
            return false;
        }
        j = j + 1;
    }
    true
}

/// Index of the block at offset (`ix`, `iy`) inside the region whose top-left block is (`bx`, `by`).
pub open spec fn spec_region_block(bw: int, bx: int, by: int, ix: int, iy: int) -> int {
    (by + iy) * bw + (bx + ix)
}

/// Every block of the `cx` x `cy` region at (`bx`, `by`) lies inside `ac`.
pub open spec fn spec_region_in_ac(len: int, bw: int, bx: int, by: int, cx: int, cy: int) -> bool {
    cx > 0 && cy > 0 ==> ((by + cy - 1) * bw + bx + cx) * 64 <= len
}

proof fn lemma_region_block_bound(bw: int, bx: int, by: int, cx: int, cy: int, ix: int, iy: int)
    requires
        bw >= 0,
        bx >= 0,
        by >= 0,
        0 <= ix < cx,
        0 <= iy < cy,
    ensures
        spec_region_block(bw, bx, by, ix, iy) + 1 <= (by + cy - 1) * bw + bx + cx,
        spec_region_block(bw, bx, by, ix, iy) >= 0,
{
    assert((by + iy) * bw <= (by + cy - 1) * bw) by (nonlinear_arith)
        requires
            iy <= cy - 1,
            bw >= 0,
    ;
    assert((by + iy) * bw >= 0) by (nonlinear_arith)
        requires
            by + iy >= 0,
            bw >= 0,
    ;
}

/// All AC coefficients of every block of a region are zero.
pub open spec fn spec_region_ac_all_zero(
    ac: Seq<i32>,
    bw: int,
    bx: int,
    by: int,
    cx: int,
    cy: int,
) -> bool {
    forall|ix: int, iy: int|
        0 <= ix < cx && 0 <= iy < cy ==> #[trigger] spec_block_ac_all_zero(
            ac,
            spec_region_block(bw, bx, by, ix, iy),
        )
}

/// Whether every AC coefficient of every block of the `cx` x `cy` region at (`bx`, `by`) is zero.
pub fn quantized_transform_region_ac_all_zero(
    ac: &[i32],
    bw: usize,
    bx: usize,
    by: usize,
    cx: usize,
    cy: usize,
) -> (r: bool)
    requires
        spec_region_in_ac(ac@.len() as int, bw as int, bx as int, by as int, cx as int, cy as int),
        by + cy <= usize::MAX,
    ensures
        r == spec_region_ac_all_zero(ac@, bw as int, bx as int, by as int, cx as int, cy as int),
{
    let ghost (w, x0, y0) = (bw as int, bx as int, by as int);
    let len = ac.len();
    let mut iy: usize = 0;
    while iy < cy
        invariant
            iy <= cy,
            w == bw,
            x0 == bx,
            y0 == by,
            spec_region_in_ac(ac@.len() as int, w, x0, y0, cx as int, cy as int),
            len == ac@.len(),
            by + cy <= usize::MAX,
            forall|ix: int, jy: int|
                0 <= ix < cx && 0 <= jy < iy ==> #[trigger] spec_block_ac_all_zero(
                    ac@,
                    spec_region_block(w, x0, y0, ix, jy),
                ),
        decreases cy - iy,
    {
        let mut ix: usize = 0;
        while ix < cx
            invariant
                ix <= cx,
                iy < cy,
                w == bw,
                x0 == bx,
                y0 == by,
                spec_region_in_ac(ac@.len() as int, w, x0, y0, cx as int, cy as int),
                len == ac@.len(),
                by + cy <= usize::MAX,
                forall|jx: int, jy: int|
                    (0 <= jx < cx && 0 <= jy < iy) || (0 <= jx < ix && jy == iy)
                        ==> #[trigger] spec_block_ac_all_zero(
                        ac@,
                        spec_region_block(w, x0, y0, jx, jy),
                    ),
            decreases cx - ix,
        {
            proof {
                lemma_region_block_bound(w, x0, y0, cx as int, cy as int, ix as int, iy as int);
                assert((by + iy) * bw + (bx + ix) + 1 <= ((by + cy - 1) * bw + bx + cx));
                assert(((by + cy - 1) * bw + bx + cx) * 64 <= len);
            }
            let block_idx = (by + iy) * bw + (bx + ix);
            if !quantized_block_ac_all_zero(ac, block_idx) {
                return false;
            }
            ix = ix + 1;
        }
        iy = iy + 1;
    }
    true
}

} // verus!

verus! {

/// Absolute value of a coefficient.
pub open spec fn spec_abs(v: i32) -> int {
    if v < 0 {
        -(v as int)
    } else {
        v as int
    }
}

/// Sum of `|ac[base + k]|` for `1 <= k < j`.
pub open spec fn spec_abs_prefix(ac: Seq<i32>, base: int, j: int) -> int
    decreases j,
{
    if j <= 1 {
        0
    } else {
        spec_abs_prefix(ac, base, j - 1) + spec_abs(ac[base + j - 1])
    }
}

/// Sum of the absolute AC coefficients of block `block`.
pub open spec fn spec_block_abs_sum(ac: Seq<i32>, block: int) -> int {
    spec_abs_prefix(ac, block * 64, 64)
}

/// Sum of the block sums of the first `n` blocks of row `iy` of a region.
pub open spec fn spec_region_row_abs_sum(
    ac: Seq<i32>,
    bw: int,
    bx: int,
    by: int,
    iy: int,
    n: int,
) -> int
    decreases n,
{
    if n <= 0 {
        0
    } else {
        spec_region_row_abs_sum(ac, bw, bx, by, iy, n - 1) + spec_block_abs_sum(
            ac,
            spec_region_block(bw, bx, by, n - 1, iy),
        )
    }
}

/// Sum of the absolute AC coefficients of the first `rows` rows of a `cx`-wide region.
pub open spec fn spec_region_abs_sum(
    ac: Seq<i32>,
    bw: int,
    bx: int,
    by: int,
    cx: int,
    rows: int,
) -> int
    decreases rows,
{
    if rows <= 0 {
        0
    } else {
        spec_region_abs_sum(ac, bw, bx, by, cx, rows - 1) + spec_region_row_abs_sum(
            ac,
            bw,
            bx,
            by,
            rows - 1,
            cx,
        )
    }
}

/// Largest absolute value of an `i32`.
pub open spec fn spec_max_abs() -> int {
    0x8000_0000
}

proof fn lemma_abs_prefix_bound(ac: Seq<i32>, base: int, j: int)
    ensures
        0 <= spec_abs_prefix(ac, base, j),
        j >= 1 ==> spec_abs_prefix(ac, base, j) <= (j - 1) * spec_max_abs(),
    decreases j,
{
    if j > 1 {
        lemma_abs_prefix_bound(ac, base, j - 1);
    }
}

proof fn lemma_row_sum_bound(ac: Seq<i32>, bw: int, bx: int, by: int, iy: int, n: int)
    ensures
        0 <= spec_region_row_abs_sum(ac, bw, bx, by, iy, n),
        n >= 0 ==> spec_region_row_abs_sum(ac, bw, bx, by, iy, n) <= n * 63 * spec_max_abs(),
    decreases n,
{
    if n > 0 {
        lemma_row_sum_bound(ac, bw, bx, by, iy, n - 1);
        lemma_abs_prefix_bound(ac, spec_region_block(bw, bx, by, n - 1, iy) * 64, 64);
    }
}

proof fn lemma_region_sum_bound(ac: Seq<i32>, bw: int, bx: int, by: int, cx: int, rows: int)
    requires
        cx >= 0,
    ensures
        0 <= spec_region_abs_sum(ac, bw, bx, by, cx, rows),
        rows >= 0 ==> spec_region_abs_sum(ac, bw, bx, by, cx, rows) <= rows * cx * 63
            * spec_max_abs(),
    decreases rows,
{
    if rows > 0 {
        lemma_region_sum_bound(ac, bw, bx, by, cx, rows - 1);
        lemma_row_sum_bound(ac, bw, bx, by, rows - 1, cx);
        assert((rows - 1) * cx * 63 * spec_max_abs() + cx * 63 * spec_max_abs() == rows * cx * 63
            * spec_max_abs()) by (nonlinear_arith);
    }
}

fn abs_u64(v: i32) -> (r: u64)
    ensures
        r == spec_abs(v),
{
    if v < 0 {
        (-(v as i64)) as u64
    } else {
        v as u64
    }
}

/// Sum of the absolute values of the AC coefficients of every block of the
/// `cx` x `cy` region at (`bx`, `by`).
pub fn quantized_transform_region_abs_sum(
    ac: &[i32],
    bw: usize,
    bx: usize,
    by: usize,
    cx: usize,
    cy: usize,
) -> (r: u64)
    requires
        spec_region_in_ac(ac@.len() as int, bw as int, bx as int, by as int, cx as int, cy as int),
        by + cy <= usize::MAX,
        cy * cx * 63 * spec_max_abs() <= u64::MAX,
    ensures
        r == spec_region_abs_sum(ac@, bw as int, bx as int, by as int, cx as int, cy as int),
        r <= cy * cx * 63 * spec_max_abs(),
{
    let ghost (w, x0, y0) = (bw as int, bx as int, by as int);
    let len = ac.len();
    let mut sum: u64 = 0;
    let mut iy: usize = 0;
    while iy < cy
        invariant
            iy <= cy,
            w == bw,
            x0 == bx,
            y0 == by,
            spec_region_in_ac(ac@.len() as int, w, x0, y0, cx as int, cy as int),
            len == ac@.len(),
            by + cy <= usize::MAX,
            cy * cx * 63 * spec_max_abs() <= u64::MAX,
            sum == spec_region_abs_sum(ac@, w, x0, y0, cx as int, iy as int),
        decreases cy - iy,
    {
        let mut ix: usize = 0;
        while ix < cx
            invariant
                ix <= cx,
                iy < cy,
                w == bw,
                x0 == bx,
                y0 == by,
                spec_region_in_ac(ac@.len() as int, w, x0, y0, cx as int, cy as int),
                len == ac@.len(),
                by + cy <= usize::MAX,
                cy * cx * 63 * spec_max_abs() <= u64::MAX,
                sum == spec_region_abs_sum(ac@, w, x0, y0, cx as int, iy as int)
                    + spec_region_row_abs_sum(ac@, w, x0, y0, iy as int, ix as int),
            decreases cx - ix,
        {
            proof {
                lemma_region_block_bound(w, x0, y0, cx as int, cy as int, ix as int, iy as int);
                assert((by + iy) * bw + (bx + ix) + 1 <= ((by + cy - 1) * bw + bx + cx));
            }
            let block_idx = (by + iy) * bw + (bx + ix);
            let base = block_idx * 64;
            let mut j: usize = 1;
            while j < 64
                invariant
                    1 <= j <= 64,
                    base == block_idx * 64,
                    base + 64 <= len,
                    len == ac@.len(),
                    block_idx == spec_region_block(w, x0, y0, ix as int, iy as int),
                    iy < cy,
                    ix < cx,
                    cy * cx * 63 * spec_max_abs() <= u64::MAX,
                    sum == spec_region_abs_sum(ac@, w, x0, y0, cx as int, iy as int)
                        + spec_region_row_abs_sum(ac@, w, x0, y0, iy as int, ix as int)
                        + spec_abs_prefix(ac@, base as int, j as int),
                decreases 64 - j,
            {
                proof {
                    lemma_region_sum_bound(ac@, w, x0, y0, cx as int, iy as int);
                    lemma_row_sum_bound(ac@, w, x0, y0, iy as int, ix as int);
                    lemma_abs_prefix_bound(ac@, base as int, j as int);
                    assert(iy * cx * 63 * spec_max_abs() + ix * 63 * spec_max_abs() + 63
                        * spec_max_abs() <= cy * cx * 63 * spec_max_abs()) by (nonlinear_arith)
                        requires
                            iy < cy,
                            ix < cx,
                    ;
                }
                sum = sum + abs_u64(ac[base + j]);
                j = j + 1;
            }
            ix = ix + 1;
        }
        iy = iy + 1;
    }
    proof {
        lemma_region_sum_bound(ac@, w, x0, y0, cx as int, cy as int);
        assert(cy * cx * 63 * spec_max_abs() == cy * (cx * 63 * spec_max_abs())) by (nonlinear_arith);
    }
    sum
}

} // verus!

verus! {

/// Storage index, in the per-8x8-block coefficient layout, of coefficient
/// `coeff_index` (row-major over the `cx*8`-wide transform) of the transform
/// whose top-left block is (`bx`, `by`).
pub open spec fn spec_storage_index(full_bw: int, bx: int, by: int, cx: int, coeff_index: int) -> int {
    let xsize = cx * 8;
    let x = coeff_index % xsize;
    let y = coeff_index / xsize;
    ((by + y / 8) * full_bw + (bx + x / 8)) * 64 + (y % 8) * 8 + x % 8
}

/// Maps a coefficient index of a multi-block transform to its place in the
/// per-8x8-block coefficient storage.
pub fn transform_coeff_index_to_block_storage(
    full_bw: usize,
    bx: usize,
    by: usize,
    cx: usize,
    coeff_index: usize,
) -> (r: usize)
    requires
        0 < cx,
        cx * 8 <= usize::MAX,
        spec_storage_index(full_bw as int, bx as int, by as int, cx as int, coeff_index as int)
            <= usize::MAX,
        by + coeff_index as int / (cx as int * 8) / 8 <= usize::MAX,
    ensures
        r == spec_storage_index(full_bw as int, bx as int, by as int, cx as int, coeff_index as int),
{
    let xsize = cx * 8;
    let x = coeff_index % xsize;
    let y = coeff_index / xsize;
    let block_x = x / 8;
    let block_y = y / 8;
    let inner_x = x % 8;
    let inner_y = y % 8;
    proof {
        let t = (by + block_y) * full_bw + (bx + block_x);
        assert(t * 64 + inner_y * 8 + inner_x <= usize::MAX);
        assert(0 <= (by + block_y) * full_bw) by (nonlinear_arith);
        assert(t * 64 <= usize::MAX);
        assert((by + block_y) * full_bw <= t);
    }
    let global_block_idx = (by + block_y) * full_bw + (bx + block_x);
    global_block_idx * 64 + inner_y * 8 + inner_x
}

/// Storage index of coefficient `k` of the block at offset (`ix`, `iy`) of a region.
pub open spec fn spec_region_coeff(bw: int, bx: int, by: int, ix: int, iy: int, k: int) -> int {
    spec_region_block(bw, bx, by, ix, iy) * 64 + k
}

/// Position `i` of the coefficient storage is an AC coefficient of a block
/// of the `cx` x `cy` region at (`bx`, `by`).
pub open spec fn spec_in_region_ac(i: int, bw: int, bx: int, by: int, cx: int, cy: int) -> bool {
    exists|ix: int, iy: int, k: int|
        0 <= ix < cx && 0 <= iy < cy && 1 <= k < 64 && i == #[trigger] spec_region_coeff(
            bw,
            bx,
            by,
            ix,
            iy, k)
}

fn zero_block_ac(ac: &mut [i32], block_idx: usize)
    requires
        block_idx * 64 + 64 <= old(ac)@.len(),
    ensures
        final(ac)@.len() == old(ac)@.len(),
        forall|i: int|
            0 <= i < old(ac)@.len() ==> #[trigger] final(ac)@[i] == (if block_idx * 64 + 1 <= i
                < block_idx * 64 + 64 {
                0
            } else {
                old(ac)@[i]
            }),
{
    let len = ac.len();
    let base = block_idx * 64;
    let mut j: usize = 1;
    while j < 64
        invariant
            1 <= j <= 64,
            base == block_idx * 64,
            base + 64 <= old(ac)@.len(),
            ac@.len() == old(ac)@.len(),
            forall|i: int|
                0 <= i < old(ac)@.len() ==> #[trigger] ac@[i] == (if base + 1 <= i < base + j {
                    0
                } else {
                    old(ac)@[i]
                }),
        decreases 64 - j,
    {
        ac[base + j] = 0;
        j = j + 1;
    }
}

/// Sets every AC coefficient of every block of the `cx` x `cy` region at
/// (`bx`, `by`) to zero, leaving all other coefficients as they were.
pub fn zero_transform_region_ac(
    ac: &mut [i32],
    full_bw: usize,
    bx: usize,
    by: usize,
    cx: usize,
    cy: usize,
)
    requires
        spec_region_in_ac(old(ac)@.len() as int, full_bw as int, bx as int, by as int, cx as int, cy as int),
        by + cy <= usize::MAX,
    ensures
        final(ac)@.len() == old(ac)@.len(),
        forall|i: int|
            0 <= i < old(ac)@.len() ==> #[trigger] final(ac)@[i] == (if spec_in_region_ac(
                i,
                full_bw as int,
                bx as int,
                by as int,
                cx as int,
                cy as int,
            ) {
                0
            } else {
                old(ac)@[i]
            }),
{
    let ghost (w, x0, y0) = (full_bw as int, bx as int, by as int);
    let ghost start = ac@;
    let len = ac.len();
    let mut iy: usize = 0;
    while iy < cy
        invariant
            iy <= cy,
            w == full_bw,
            x0 == bx,
            y0 == by,
            start == old(ac)@,
            spec_region_in_ac(start.len() as int, w, x0, y0, cx as int, cy as int),
            len == start.len(),
            ac@.len() == start.len(),
            by + cy <= usize::MAX,
            forall|i: int|
                0 <= i < start.len() ==> #[trigger] ac@[i] == (if spec_in_region_ac(
                    i,
                    w,
                    x0,
                    y0,
                    cx as int,
                    iy as int,
                ) {
                    0
                } else {
                    start[i]
                }),
        decreases cy - iy,
    {
        let mut ix: usize = 0;
        while ix < cx
            invariant
                ix <= cx,
                iy < cy,
                w == full_bw,
                x0 == bx,
                y0 == by,
                start == old(ac)@,
                spec_region_in_ac(start.len() as int, w, x0, y0, cx as int, cy as int),
                len == start.len(),
                ac@.len() == start.len(),
                by + cy <= usize::MAX,
                forall|i: int|
                    0 <= i < start.len() ==> #[trigger] ac@[i] == (if spec_in_region_ac(
                        i,
                        w,
                        x0,
                        y0,
                        cx as int,
                        iy as int,
                    ) || (exists|jx: int, k: int|
                        0 <= jx < ix && 1 <= k < 64 && i == #[trigger] spec_region_coeff(
                            w,
                            x0,
                            y0,
                            jx,
                            iy as int, k)) {
                        0
                    } else {
                        start[i]
                    }),
            decreases cx - ix,
        {
            proof {
                lemma_region_block_bound(w, x0, y0, cx as int, cy as int, ix as int, iy as int);
                assert((by + iy) * full_bw + (bx + ix) + 1 <= ((by + cy - 1) * full_bw + bx + cx));
            }
            let block_idx = (by + iy) * full_bw + (bx + ix);
            let ghost before = ac@;
            zero_block_ac(ac, block_idx);
            proof {
                assert forall|i: int| 0 <= i < start.len() implies #[trigger] ac@[i] == (if spec_in_region_ac(
                    i,
                    w,
                    x0,
                    y0,
                    cx as int,
                    iy as int,
                ) || (exists|jx: int, k: int|
                    0 <= jx < ix + 1 && 1 <= k < 64 && i == #[trigger] spec_region_coeff(
                        w,
                        x0,
                        y0,
                        jx,
                        iy as int, k)) {
                    0
                } else {
                    start[i]
                }) by {
                    let b = spec_region_block(w, x0, y0, ix as int, iy as int);
                    if block_idx * 64 + 1 <= i < block_idx * 64 + 64 {
                        let k = i - b * 64;
                        assert(0 <= ix < ix + 1 && 1 <= k < 64 && i == spec_region_coeff(
                            w,
                            x0,
                            y0,
                            ix as int,
                            iy as int, k));
                    } else {
                        if exists|jx: int, k: int|
                            0 <= jx < ix + 1 && 1 <= k < 64 && i == #[trigger] spec_region_coeff(
                                w,
                                x0,
                                y0,
                                jx,
                                iy as int, k) {
                            let (jx, k) = choose|jx: int, k: int|
                                0 <= jx < ix + 1 && 1 <= k < 64 && i == #[trigger] spec_region_coeff(
                                    w,
                                    x0,
                                    y0,
                                    jx,
                                    iy as int, k);
                            if jx == ix {
                                assert(false);
                            } else {
                                assert(0 <= jx < ix && 1 <= k < 64 && i == spec_region_coeff(
                                    w,
                                    x0,
                                    y0,
                                    jx,
                                    iy as int, k));
                            }
                        }
                    }
                }
            }
            ix = ix + 1;
        }
        proof {
            assert forall|i: int| 0 <= i < start.len() implies #[trigger] ac@[i] == (if spec_in_region_ac(
                i,
                w,
                x0,
                y0,
                cx as int,
                iy + 1,
            ) {
                0
            } else {
                start[i]
            }) by {
                if spec_in_region_ac(i, w, x0, y0, cx as int, iy + 1) {
                    let (jx, jy, k) = choose|jx: int, jy: int, k: int|
                        0 <= jx < cx && 0 <= jy < iy + 1 && 1 <= k < 64 && i
                            == #[trigger] spec_region_coeff(w, x0, y0, jx, jy, k);
                    if jy < iy {
                        assert(0 <= jx < cx && 0 <= jy < iy && 1 <= k < 64 && i
                            == spec_region_coeff(w, x0, y0, jx, jy, k));
                    } else {
                        assert(0 <= jx < cx && 1 <= k < 64 && i == spec_region_coeff(
                            w,
                            x0,
                            y0,
                            jx,
                            iy as int, k));
                    }
                } else {
                    if spec_in_region_ac(i, w, x0, y0, cx as int, iy as int) {
                        let (jx, jy, k) = choose|jx: int, jy: int, k: int|
                            0 <= jx < cx && 0 <= jy < iy && 1 <= k < 64 && i
                                == #[trigger] spec_region_coeff(w, x0, y0, jx, jy, k);
                        assert(0 <= jx < cx && 0 <= jy < iy + 1 && 1 <= k < 64 && i
                            == spec_region_coeff(w, x0, y0, jx, jy, k));
                    }
                    if exists|jx: int, k: int|
                        0 <= jx < cx && 1 <= k < 64 && i == #[trigger] spec_region_coeff(
                            w,
                            x0,
                            y0,
                            jx,
                            iy as int, k) {
                        let (jx, k) = choose|jx: int, k: int|
                            0 <= jx < cx && 1 <= k < 64 && i == #[trigger] spec_region_coeff(
                                w,
                                x0,
                                y0,
                                jx,
                                iy as int, k);
                        assert(0 <= jx < cx && 0 <= iy < iy + 1 && 1 <= k < 64 && i
                            == spec_region_coeff(w, x0, y0, jx, iy as int, k));
                    }
                }
            }
        }
        iy = iy + 1;
    }
}

} // verus!

verus! {

/// Coefficients with every AC coefficient of the region's blocks set to zero.
pub open spec fn spec_zero_region(
    ac: Seq<i32>,
    bw: int,
    bx: int,
    by: int,
    cx: int,
    cy: int,
) -> Seq<i32> {
    Seq::new(ac.len(), |i: int| if spec_in_region_ac(i, bw, bx, by, cx, cy) { 0 } else { ac[i] })
}

/// Processing of transform-map block (`bx`, `by`) when clearing the AC
/// coefficients of non-DCT8x8 transforms: the coefficients so far and the
/// error met so far, if any.
pub open spec fn spec_zero_step(
    state: (Seq<i32>, Option<Error>),
    map: Seq<u8>,
    bw: int,
    bh: int,
    bx: int,
    by: int,
) -> (Seq<i32>, Option<Error>) {
    let raw = map[by * bw + bx];
    let id = spec_entry_id(raw);
    if state.1 is Some || !spec_is_first_block(raw) || id == 0 {
        state
    } else if id >= 27 {
        (state.0, Some(Error::InvalidVarDCTTransform(id as usize)))
    } else {
        let t = spec_type_of_id(id as int);
        let cx = spec_covered_x(t) as int;
        let cy = spec_covered_y(t) as int;
        if bx + cx > bw || by + cy > bh {
            (state.0, Some(Error::HFBlockOutOfBounds))
        } else {
            (spec_zero_region(state.0, bw, bx, by, cx, cy), None)
        }
    }
}

/// State after processing the first `n` blocks of row `by`.
pub open spec fn spec_zero_cols(
    state: (Seq<i32>, Option<Error>),
    map: Seq<u8>,
    bw: int,
    bh: int,
    by: int,
    n: int,
) -> (Seq<i32>, Option<Error>)
    decreases n,
{
    if n <= 0 {
        state
    } else {
        spec_zero_step(spec_zero_cols(state, map, bw, bh, by, n - 1), map, bw, bh, n - 1, by)
    }
}

/// State after processing the first `m` rows of blocks.
pub open spec fn spec_zero_rows(
    state: (Seq<i32>, Option<Error>),
    map: Seq<u8>,
    bw: int,
    bh: int,
    m: int,
) -> (Seq<i32>, Option<Error>)
    decreases m,
{
    if m <= 0 {
        state
    } else {
        spec_zero_cols(spec_zero_rows(state, map, bw, bh, m - 1), map, bw, bh, m - 1, bw)
    }
}

/// Result of clearing, in raster order, the AC coefficients of every transform
/// other than DCT8x8; processing stops at the first entry that names no
/// transform or whose transform leaves the image.
pub open spec fn spec_zero_non_dct8(ac: Seq<i32>, map: Seq<u8>, bw: int, bh: int) -> (
    Seq<i32>,
    Option<Error>,
) {
    spec_zero_rows((ac, None), map, bw, bh, bh)
}

/// A transform of id `id` with its top-left block at (`bx`, `by`) names a
/// transform and fits the `bw` x `bh` grid.
pub open spec fn spec_transform_fits(id: u8, bw: int, bh: int, bx: int, by: int) -> bool {
    &&& id < 27
    &&& bx + spec_covered_x(spec_type_of_id(id as int)) <= bw
    &&& by + spec_covered_y(spec_type_of_id(id as int)) <= bh
}

/// Every first-block entry of the `bw` x `bh` transform map names a
/// transform that fits the grid.
pub open spec fn spec_well_formed_map(map: Seq<u8>, bw: int, bh: int) -> bool {
    &&& map.len() >= bw * bh
    &&& forall|bx: int, by: int|
        0 <= bx < bw && 0 <= by < bh && spec_is_first_block(
            map[#[trigger] spec_region_block(bw, 0, 0, bx, by)],
        ) ==> spec_transform_fits(spec_entry_id(map[spec_region_block(bw, 0, 0, bx, by)]), bw, bh, bx, by)
}

/// The first block at (`fx`, `fy`) of a `bw`-wide map starts a known
/// transform whose blocks include (`x`, `y`).
pub open spec fn spec_covers(map: Seq<u8>, bw: int, fx: int, fy: int, x: int, y: int) -> bool {
    let raw = map[fy * bw + fx];
    let t = spec_type_of_id(spec_entry_id(raw) as int);
    &&& spec_is_first_block(raw)
    &&& spec_entry_id(raw) < 27
    &&& fx <= x < fx + spec_covered_x(t)
    &&& fy <= y < fy + spec_covered_y(t)
}

/// (`x`, `y`) is a block of a `bw` x `bh` grid.
pub open spec fn spec_in_grid(bw: int, bh: int, x: int, y: int) -> bool {
    0 <= x < bw && 0 <= y < bh
}

/// The map is a tiling of the `bw` x `bh` grid by transforms: it is well
/// formed, every block is covered by the transform of exactly one first
/// block, and every other block of a transform carries that transform's id
/// without the first-block flag.
pub open spec fn spec_tiling(map: Seq<u8>, bw: int, bh: int) -> bool {
    &&& map.len() == bw * bh
    &&& spec_well_formed_map(map, bw, bh)
    &&& forall|x: int, y: int|
        spec_in_grid(bw, bh, x, y) ==> exists|fx: int, fy: int|
            spec_in_grid(bw, bh, fx, fy) && #[trigger] spec_covers(map, bw, fx, fy, x, y)
    &&& forall|x: int, y: int, fx: int, fy: int, gx: int, gy: int|
        #![trigger spec_covers(map, bw, fx, fy, x, y), spec_covers(map, bw, gx, gy, x, y)]
        spec_in_grid(bw, bh, x, y) && spec_in_grid(bw, bh, fx, fy) && spec_in_grid(bw, bh, gx, gy)
            && spec_covers(map, bw, fx, fy, x, y) && spec_covers(map, bw, gx, gy, x, y) ==> fx == gx && fy
            == gy
    &&& forall|x: int, y: int, fx: int, fy: int|
        spec_in_grid(bw, bh, x, y) && spec_in_grid(bw, bh, fx, fy) && #[trigger] spec_covers(
            map,
            bw,
            fx,
            fy,
            x,
            y,
        ) && !(x == fx && y == fy) ==> map[y * bw + x] == spec_entry_id(map[fy * bw + fx])
}

proof fn lemma_zero_cols_no_error(
    state: (Seq<i32>, Option<Error>),
    map: Seq<u8>,
    bw: int,
    bh: int,
    by: int,
    n: int,
)
    requires
        state.1 is None,
        spec_well_formed_map(map, bw, bh),
        0 <= by < bh,
        n <= bw,
    ensures
        spec_zero_cols(state, map, bw, bh, by, n).1 is None,
    decreases n,
{
    if n > 0 {
        lemma_zero_cols_no_error(state, map, bw, bh, by, n - 1);
        assert(spec_region_block(bw, 0, 0, n - 1, by) == by * bw + (n - 1));
    }
}

proof fn lemma_zero_rows_no_error(state: (Seq<i32>, Option<Error>), map: Seq<u8>, bw: int, bh: int, m: int)
    requires
        state.1 is None,
        spec_well_formed_map(map, bw, bh),
        m <= bh,
    ensures
        spec_zero_rows(state, map, bw, bh, m).1 is None,
    decreases m,
{
    if m > 0 {
        lemma_zero_rows_no_error(state, map, bw, bh, m - 1);
        lemma_zero_cols_no_error(spec_zero_rows(state, map, bw, bh, m - 1), map, bw, bh, m - 1, bw);
    }
}

/// Clearing the AC coefficients of non-DCT8x8 transforms never fails on a
/// well-formed transform map.
pub proof fn lemma_zero_non_dct8_accepts_well_formed(ac: Seq<i32>, map: Seq<u8>, bw: int, bh: int)
    requires
        spec_well_formed_map(map, bw, bh),
    ensures
        spec_zero_non_dct8(ac, map, bw, bh).1 is None,
{
    lemma_zero_rows_no_error((ac, None), map, bw, bh, bh);
}

proof fn lemma_zero_rows_error_sticks(
    state: (Seq<i32>, Option<Error>),
    map: Seq<u8>,
    bw: int,
    bh: int,
    by: int,
    n: int,
)
    requires
        state.1 is Some,
    ensures
        spec_zero_cols(state, map, bw, bh, by, n) == state,
    decreases n,
{
    if n > 0 {
        lemma_zero_rows_error_sticks(state, map, bw, bh, by, n - 1);
    }
}

proof fn lemma_zero_all_rows_error_sticks(
    state: (Seq<i32>, Option<Error>),
    map: Seq<u8>,
    bw: int,
    bh: int,
    m: int,
    extra_rows: int,
)
    requires
        spec_zero_rows(state, map, bw, bh, m).1 is Some,
        0 <= m,
        0 <= extra_rows,
    ensures
        spec_zero_rows(state, map, bw, bh, m + extra_rows) == spec_zero_rows(state, map, bw, bh, m),
    decreases extra_rows,
{
    if extra_rows > 0 {
        lemma_zero_all_rows_error_sticks(state, map, bw, bh, m, extra_rows - 1);
        lemma_zero_rows_error_sticks(
            spec_zero_rows(state, map, bw, bh, m + extra_rows - 1),
            map,
            bw,
            bh,
            m + extra_rows - 1,
            bw,
        );
    }
}

proof fn lemma_zero_cols_error_sticks_from(
    state: (Seq<i32>, Option<Error>),
    map: Seq<u8>,
    bw: int,
    bh: int,
    by: int,
    n: int,
    extra: int,
)
    requires
        spec_zero_cols(state, map, bw, bh, by, n).1 is Some,
        0 <= n,
        0 <= extra,
    ensures
        spec_zero_cols(state, map, bw, bh, by, n + extra) == spec_zero_cols(state, map, bw, bh, by, n),
    decreases extra,
{
    if extra > 0 {
        lemma_zero_cols_error_sticks_from(state, map, bw, bh, by, n, extra - 1);
    }
}

/// Clears the AC coefficients of every block covered by a transform other
/// than DCT8x8, scanning the transform map in raster order. Fails on the first
/// first-block entry that names no transform (`InvalidVarDCTTransform`) or
/// whose transform does not fit in the `bw` x `bh` grid
/// (`HFBlockOutOfBounds`); the coefficients cleared before that stay cleared.
pub fn zero_non_dct8_ac_coeffs(ac: &mut [i32], transform_map: &[u8], bw: usize, bh: usize) -> (r:
    Result<(), Error>)
    requires
        transform_map@.len() >= bw * bh,
        old(ac)@.len() >= bw * bh * 64,
    ensures
        final(ac)@ == spec_zero_non_dct8(old(ac)@, transform_map@, bw as int, bh as int).0,
        r is Ok <==> spec_zero_non_dct8(old(ac)@, transform_map@, bw as int, bh as int).1 is None,
        r matches Err(e) ==> spec_zero_non_dct8(old(ac)@, transform_map@, bw as int, bh as int).1
            == Some(e),
{
    let ghost start = ac@;
    let ghost map = transform_map@;
    let ghost (w, h) = (bw as int, bh as int);
    let map_len = transform_map.len();
    let ac_len = ac.len();
    let mut by: usize = 0;
    while by < bh
        invariant
            by <= bh,
            map_len == transform_map@.len(),
            ac_len == start.len(),
            map == transform_map@,
            w == bw,
            h == bh,
            transform_map@.len() >= bw * bh,
            ac@.len() == start.len(),
            start == old(ac)@,
            start.len() >= bw * bh * 64,
            spec_zero_rows((start, None), map, w, h, by as int) == (ac@, None::<Error>),
        decreases bh - by,
    {
        let mut bx: usize = 0;
        while bx < bw
            invariant
                bx <= bw,
                by < bh,
                map_len == transform_map@.len(),
                ac_len == start.len(),
                map == transform_map@,
                w == bw,
                h == bh,
                transform_map@.len() >= bw * bh,
                ac@.len() == start.len(),
                start == old(ac)@,
                start.len() >= bw * bh * 64,
                spec_zero_cols(
                    spec_zero_rows((start, None), map, w, h, by as int),
                    map,
                    w,
                    h,
                    by as int,
                    bx as int,
                ) == (ac@, None::<Error>),
            decreases bw - bx,
        {
            proof {
                assert(by * bw + bx < bw * bh) by (nonlinear_arith)
                    requires
                        by < bh,
                        bx < bw,
                ;
            }
            let idx = by * bw + bx;
            let (first, transform_id) = split_transform_entry(transform_map[idx]);
            let ghost prev = spec_zero_cols(
                spec_zero_rows((start, None), map, w, h, by as int),
                map,
                w,
                h,
                by as int,
                bx as int,
            );
            if first && transform_id != DCT8_TRANSFORM_ID {
                let transform_type = match HfTransformType::from_usize(transform_id as usize) {
                    Some(t) => t,
                    None => {
                        proof {
                            let after = spec_zero_cols(
                                spec_zero_rows((start, None), map, w, h, by as int),
                                map,
                                w,
                                h,
                                by as int,
                                bx + 1,
                            );
                            assert(after.1 is Some);
                            lemma_zero_cols_error_sticks_from(
                                spec_zero_rows((start, None), map, w, h, by as int),
                                map,
                                w,
                                h,
                                by as int,
                                bx + 1,
                                w - bx - 1,
                            );
                            lemma_zero_all_rows_error_sticks((start, None), map, w, h, by + 1, h - by - 1);
                        }
                        return Err(Error::InvalidVarDCTTransform(transform_id as usize));
                    },
                };
                let cx = covered_blocks_x(transform_type) as usize;
                let cy = covered_blocks_y(transform_type) as usize;
                proof {
                    assert(bw * 64 <= bw * bh * 64 && bh * 64 <= bw * bh * 64) by (nonlinear_arith)
                        requires
                            bx < bw,
                            by < bh,
                    ;
                }
                if bx + cx > bw || by + cy > bh {
                    proof {
                        lemma_zero_cols_error_sticks_from(
                            spec_zero_rows((start, None), map, w, h, by as int),
                            map,
                            w,
                            h,
                            by as int,
                            bx + 1,
                            w - bx - 1,
                        );
                        lemma_zero_all_rows_error_sticks((start, None), map, w, h, by + 1, h - by - 1);
                    }
                    return Err(Error::HFBlockOutOfBounds);
                }
                proof {
                    assert(((by + cy - 1) * bw + bx + cx) * 64 <= bw * bh * 64) by (nonlinear_arith)
                        requires
                            bx + cx <= bw,
                            by + cy <= bh,
                            cy >= 1,
                    ;
                }
                zero_transform_region_ac(ac, bw, bx, by, cx, cy);
                proof {
                    assert(ac@ =~= spec_zero_region(prev.0, w, bx as int, by as int, cx as int, cy as int));
                }
            }
            bx = bx + 1;
        }
        by = by + 1;
    }
    Ok(())
}

} // verus!

verus! {

/// Entries (transform id, quant value) of the first `n` blocks of row `y` of a
/// rectangle, for blocks that are first blocks of their transform.
pub open spec fn spec_row_entries(
    map: Seq<u8>,
    quant: Seq<u8>,
    bw: int,
    x0: int,
    y0: int,
    y: int,
    n: int,
) -> Seq<(u8, u8)>
    decreases n,
{
    if n <= 0 {
        seq![]
    } else {
        let prev = spec_row_entries(map, quant, bw, x0, y0, y, n - 1);
        let idx = (y0 + y) * bw + (x0 + n - 1);
        if spec_is_first_block(map[idx]) {
            prev.push((spec_entry_id(map[idx]), quant[idx]))
        } else {
            prev
        }
    }
}

/// Entries of the first `rows` rows of a `rw`-wide rectangle, in raster order.
pub open spec fn spec_rect_entries(
    map: Seq<u8>,
    quant: Seq<u8>,
    bw: int,
    x0: int,
    y0: int,
    rw: int,
    rows: int,
) -> Seq<(u8, u8)>
    decreases rows,
{
    if rows <= 0 {
        seq![]
    } else {
        spec_rect_entries(map, quant, bw, x0, y0, rw, rows - 1) + spec_row_entries(
            map,
            quant,
            bw,
            x0,
            y0,
            rows - 1,
            rw,
        )
    }
}

/// Lists, in raster order, the (transform id, quant value) pair of every block
/// of the `rw` x `rh` rectangle at (`x0`, `y0`) that is the first block of its transform.
pub fn collect_transform_entries_for_rect(
    transform_map: &[u8],
    raw_quant_map: &[u8],
    bw: usize,
    x0: usize,
    y0: usize,
    rw: usize,
    rh: usize,
) -> (r: Vec<(u8, u8)>)
    requires
        spec_region_in_ac((transform_map@.len() * 64) as int, bw as int, x0 as int, y0 as int, rw as int, rh as int),
        spec_region_in_ac((raw_quant_map@.len() * 64) as int, bw as int, x0 as int, y0 as int, rw as int, rh as int),
        y0 + rh <= usize::MAX,
    ensures
        r@ == spec_rect_entries(
            transform_map@,
            raw_quant_map@,
            bw as int,
            x0 as int,
            y0 as int,
            rw as int,
            rh as int,
        ),
{
    let ghost (w, gx, gy) = (bw as int, x0 as int, y0 as int);
    let map_len = transform_map.len();
    let mut entries: Vec<(u8, u8)> = Vec::new();
    let mut y: usize = 0;
    while y < rh
        invariant
            y <= rh,
            w == bw,
            gx == x0,
            gy == y0,
            map_len == transform_map@.len(),
            y0 + rh <= usize::MAX,
            spec_region_in_ac((transform_map@.len() * 64) as int, w, gx, gy, rw as int, rh as int),
            spec_region_in_ac((raw_quant_map@.len() * 64) as int, w, gx, gy, rw as int, rh as int),
            entries@ == spec_rect_entries(
                transform_map@,
                raw_quant_map@,
                w,
                gx,
                gy,
                rw as int,
                y as int,
            ),
        decreases rh - y,
    {
        let ghost before = entries@;
        let mut x: usize = 0;
        while x < rw
            invariant
                x <= rw,
                y < rh,
                w == bw,
                gx == x0,
                gy == y0,
                map_len == transform_map@.len(),
                y0 + rh <= usize::MAX,
                spec_region_in_ac((transform_map@.len() * 64) as int, w, gx, gy, rw as int, rh as int),
                spec_region_in_ac((raw_quant_map@.len() * 64) as int, w, gx, gy, rw as int, rh as int),
                before == spec_rect_entries(
                    transform_map@,
                    raw_quant_map@,
                    w,
                    gx,
                    gy,
                    rw as int,
                    y as int,
                ),
                entries@ == before + spec_row_entries(
                    transform_map@,
                    raw_quant_map@,
                    w,
                    gx,
                    gy,
                    y as int,
                    x as int,
                ),
            decreases rw - x,
        {
            proof {
                lemma_region_block_bound(w, gx, gy, rw as int, rh as int, x as int, y as int);
            }
            let idx = (y0 + y) * bw + (x0 + x);
            let (first, transform_id) = split_transform_entry(transform_map[idx]);
            if first {
                entries.push((transform_id, raw_quant_map[idx]));
            }
            proof {
                assert(entries@ =~= before + spec_row_entries(
                    transform_map@,
                    raw_quant_map@,
                    w,
                    gx,
                    gy,
                    y as int,
                    x + 1,
                ));
            }
            x = x + 1;
        }
        y = y + 1;
    }
    entries
}


/// Whether slot `i` of the coefficient storage is an AC coefficient of a
/// block whose transform is not DCT8x8 and whose transform starts at one of
/// the first `p` blocks in raster order.
pub open spec fn spec_slot_cleared(map: Seq<u8>, bw: int, bh: int, p: int, i: int) -> bool {
    let b = i / 64;
    &&& 0 <= i < bw * bh * 64
    &&& i % 64 != 0
    &&& spec_entry_id(map[b]) != 0
    &&& exists|fx: int, fy: int|
        spec_in_grid(bw, bh, fx, fy) && fy * bw + fx < p && #[trigger] spec_covers(map, bw, fx, fy, b % bw, b / bw)
}

/// The coefficients after clearing the transforms that start at the first
/// `p` blocks.
pub open spec fn spec_cleared_upto(ac: Seq<i32>, map: Seq<u8>, bw: int, bh: int, p: int) -> Seq<i32> {
    Seq::new(ac.len(), |i: int| if spec_slot_cleared(map, bw, bh, p, i) { 0i32 } else { ac[i] })
}

#[verifier::spinoff_prover]
#[verifier::rlimit(40)]
proof fn lemma_slot_coords(i: int, bw: int, bh: int)
    requires
        bw >= 1,
        0 <= i < bw * bh * 64,
    ensures
        spec_in_grid(bw, bh, (i / 64) % bw, (i / 64) / bw),
        i == (((i / 64) / bw) * bw + (i / 64) % bw) * 64 + i % 64,
        0 <= i % 64 < 64,
{
    lemma_fundamental_div_mod(i, 64);
    lemma_fundamental_div_mod(i / 64, bw);
    let b = i / 64;
    assert(64 * b <= i);
    let n = bw * bh;
    assert(i < n * 64);
    assert(b < n);
    assert(i == ((b / bw) * bw + b % bw) * 64 + i % 64) by (nonlinear_arith)
        requires
            i == 64 * b + i % 64,
            b == bw * (b / bw) + b % bw,
    ;
    assert(b / bw < bh) by (nonlinear_arith)
        requires
            b == bw * (b / bw) + b % bw,
            0 <= b % bw < bw,
            b < bw * bh,
            bw >= 1,
    ;
    assert(b >= 0);
    assert(b / bw >= 0) by (nonlinear_arith)
        requires
            b >= 0,
            bw >= 1,
    ;
}

#[verifier::spinoff_prover]
#[verifier::rlimit(40)]
proof fn lemma_in_region_ac_coords(i: int, bw: int, bh: int, bx: int, by: int, cx: int, cy: int)
    requires
        bw >= 1,
        0 <= bx,
        0 <= by,
        1 <= cx,
        1 <= cy,
        bx + cx <= bw,
        by + cy <= bh,
    ensures
        spec_in_region_ac(i, bw, bx, by, cx, cy) == (0 <= i < bw * bh * 64 && i % 64 != 0 && bx <= (i / 64) % bw
            < bx + cx && by <= (i / 64) / bw < by + cy),
{
    if spec_in_region_ac(i, bw, bx, by, cx, cy) {
        let (ix, iy, k) = choose|ix: int, iy: int, k: int|
            0 <= ix < cx && 0 <= iy < cy && 1 <= k < 64 && i == #[trigger] spec_region_coeff(bw, bx, by, ix, iy, k);
        let b = (by + iy) * bw + bx + ix;
        lemma_fundamental_div_mod_converse(i, 64, b, k);
        lemma_fundamental_div_mod_converse(b, bw, by + iy, bx + ix);
        assert(b < bw * bh) by (nonlinear_arith)
            requires
                b == (by + iy) * bw + bx + ix,
                0 <= by + iy < bh,
                0 <= bx + ix < bw,
        ;
        let n = bw * bh;
        assert(i < n * 64);
        assert(b >= 0) by (nonlinear_arith)
            requires
                b == (by + iy) * bw + bx + ix,
                by + iy >= 0,
                bx + ix >= 0,
                bw >= 1,
        ;
    }
    if 0 <= i < bw * bh * 64 && i % 64 != 0 && bx <= (i / 64) % bw < bx + cx && by <= (i / 64) / bw < by + cy {
        lemma_slot_coords(i, bw, bh);
        let x = (i / 64) % bw;
        let y = (i / 64) / bw;
        assert(i == spec_region_coeff(bw, bx, by, x - bx, y - by, i % 64));
    }
}

#[verifier::spinoff_prover]
#[verifier::rlimit(40)]
proof fn lemma_cleared_next(map: Seq<u8>, bw: int, bh: int, bx: int, by: int, i: int)
    requires
        spec_tiling(map, bw, bh),
        spec_in_grid(bw, bh, bx, by),
    ensures
        spec_slot_cleared(map, bw, bh, by * bw + bx + 1, i) == (spec_slot_cleared(map, bw, bh, by * bw + bx, i) || (0
            <= i < bw * bh * 64 && i % 64 != 0 && spec_entry_id(map[i / 64]) != 0 && spec_covers(
            map,
            bw,
            bx,
            by,
            (i / 64) % bw,
            (i / 64) / bw,
        ))),
{
    let p = by * bw + bx;
    if 0 <= i < bw * bh * 64 {
        lemma_slot_coords(i, bw, bh);
        let b = i / 64;
        if spec_slot_cleared(map, bw, bh, p + 1, i) && !spec_slot_cleared(map, bw, bh, p, i) {
            let (fx, fy) = choose|fx: int, fy: int|
                spec_in_grid(bw, bh, fx, fy) && fy * bw + fx < p + 1 && #[trigger] spec_covers(
                    map,
                    bw,
                    fx,
                    fy,
                    b % bw,
                    b / bw,
                );
            assert(fy * bw + fx == p);
            crate::merge_map::lemma_grid_coords_unique(bw, bh, fx, fy, bx, by);
        }
        if spec_covers(map, bw, bx, by, b % bw, b / bw) {
            assert(spec_in_grid(bw, bh, bx, by) && by * bw + bx < p + 1);
        }
    }
}

#[verifier::spinoff_prover]
#[verifier::rlimit(40)]
proof fn lemma_zero_step_cleared(ac: Seq<i32>, map: Seq<u8>, bw: int, bh: int, bx: int, by: int)
    requires
        spec_tiling(map, bw, bh),
        spec_in_grid(bw, bh, bx, by),
    ensures
        spec_zero_step((spec_cleared_upto(ac, map, bw, bh, by * bw + bx), None), map, bw, bh, bx, by) == (
            spec_cleared_upto(ac, map, bw, bh, by * bw + bx + 1),
            None::<Error>,
        ),
{
    let p = by * bw + bx;
    let raw = map[p];
    let id = spec_entry_id(raw);
    let before = spec_cleared_upto(ac, map, bw, bh, p);
    let after = spec_cleared_upto(ac, map, bw, bh, p + 1);
    assert(map[spec_region_block(bw, 0, 0, bx, by)] == raw);
    if !spec_is_first_block(raw) || id == 0 {
        assert forall|i: int| 0 <= i < ac.len() implies after[i] == before[i] by {
            lemma_cleared_next(map, bw, bh, bx, by, i);
            if 0 <= i < bw * bh * 64 && spec_covers(map, bw, bx, by, (i / 64) % bw, (i / 64) / bw) {
                lemma_slot_coords(i, bw, bh);
                assert(spec_covered_x(spec_type_of_id(0)) == 1 && spec_covered_y(spec_type_of_id(0)) == 1);
                assert(i / 64 == p);
            }
        }
        assert(after =~= before);
    } else {
        lemma_zero_step_region(ac, map, bw, bh, bx, by);
    }
}

#[verifier::spinoff_prover]
#[verifier::rlimit(40)]
proof fn lemma_zero_step_region(ac: Seq<i32>, map: Seq<u8>, bw: int, bh: int, bx: int, by: int)
    requires
        spec_tiling(map, bw, bh),
        spec_in_grid(bw, bh, bx, by),
        spec_is_first_block(map[by * bw + bx]),
        spec_entry_id(map[by * bw + bx]) != 0,
    ensures
        ({
            let id = spec_entry_id(map[by * bw + bx]);
            let t = spec_type_of_id(id as int);
            spec_zero_region(
                spec_cleared_upto(ac, map, bw, bh, by * bw + bx),
                bw,
                bx,
                by,
                spec_covered_x(t) as int,
                spec_covered_y(t) as int,
            ) == spec_cleared_upto(ac, map, bw, bh, by * bw + bx + 1)
        }),
        spec_transform_fits(spec_entry_id(map[by * bw + bx]), bw, bh, bx, by),
{
    let p = by * bw + bx;
    let id = spec_entry_id(map[p]);
    let t = spec_type_of_id(id as int);
    let cx = spec_covered_x(t) as int;
    let cy = spec_covered_y(t) as int;
    assert(map[spec_region_block(bw, 0, 0, bx, by)] == map[p]);
    assert(spec_transform_fits(id, bw, bh, bx, by));
    crate::tokenize::lemma_transform_blocks(t);
    let before = spec_cleared_upto(ac, map, bw, bh, p);
    let after = spec_cleared_upto(ac, map, bw, bh, p + 1);
    let z = spec_zero_region(before, bw, bx, by, cx, cy);
    assert forall|i: int| 0 <= i < ac.len() implies z[i] == after[i] by {
        lemma_cleared_next(map, bw, bh, bx, by, i);
        if 0 <= i < bw * bh * 64 {
            lemma_slot_coords(i, bw, bh);
            let x = (i / 64) % bw;
            let y = (i / 64) / bw;
            if spec_covers(map, bw, bx, by, x, y) && !(x == bx && y == by) {
                assert(map[y * bw + x] == id);
            }
        }
        lemma_zero_step_slot(ac, map, bw, bh, bx, by, i);
    }
    assert(z =~= after);
}

#[verifier::spinoff_prover]
#[verifier::rlimit(60)]
proof fn lemma_zero_step_slot(ac: Seq<i32>, map: Seq<u8>, bw: int, bh: int, bx: int, by: int, i: int)
    requires
        spec_in_grid(bw, bh, bx, by),
        spec_is_first_block(map[by * bw + bx]),
        spec_entry_id(map[by * bw + bx]) != 0,
        spec_transform_fits(spec_entry_id(map[by * bw + bx]), bw, bh, bx, by),
        0 <= i < ac.len(),
        spec_slot_cleared(map, bw, bh, by * bw + bx + 1, i) == (spec_slot_cleared(map, bw, bh, by * bw + bx, i) || (0
            <= i < bw * bh * 64 && i % 64 != 0 && spec_entry_id(map[i / 64]) != 0 && spec_covers(
            map,
            bw,
            bx,
            by,
            (i / 64) % bw,
            (i / 64) / bw,
        ))),
        (0 <= i < bw * bh * 64 && spec_covers(map, bw, bx, by, (i / 64) % bw, (i / 64) / bw) && !((i / 64) % bw
            == bx && (i / 64) / bw == by)) ==> map[((i / 64) / bw) * bw + (i / 64) % bw] == spec_entry_id(
            map[by * bw + bx],
        ),
    ensures
        ({
            let id = spec_entry_id(map[by * bw + bx]);
            let t = spec_type_of_id(id as int);
            spec_zero_region(
                spec_cleared_upto(ac, map, bw, bh, by * bw + bx),
                bw,
                bx,
                by,
                spec_covered_x(t) as int,
                spec_covered_y(t) as int,
            )[i] == spec_cleared_upto(ac, map, bw, bh, by * bw + bx + 1)[i]
        }),
{
    let id = spec_entry_id(map[by * bw + bx]);
    let t = spec_type_of_id(id as int);
    let cx = spec_covered_x(t) as int;
    let cy = spec_covered_y(t) as int;
    crate::tokenize::lemma_transform_blocks(t);
    lemma_in_region_ac_coords(i, bw, bh, bx, by, cx, cy);
    if 0 <= i < bw * bh * 64 {
        lemma_slot_coords(i, bw, bh);
        let x = (i / 64) % bw;
        let y = (i / 64) / bw;
        if spec_covers(map, bw, bx, by, x, y) {
            assert(i / 64 == y * bw + x);
            if x == bx && y == by {
                assert(map[i / 64] == map[by * bw + bx]);
            } else {
                assert(spec_entry_id(id) == id);
            }
        }
    }
}

proof fn lemma_zero_cols_cleared(ac: Seq<i32>, map: Seq<u8>, bw: int, bh: int, by: int, n: int)
    requires
        spec_tiling(map, bw, bh),
        0 <= by < bh,
        0 <= n <= bw,
    ensures
        spec_zero_cols((spec_cleared_upto(ac, map, bw, bh, by * bw), None), map, bw, bh, by, n) == (
            spec_cleared_upto(ac, map, bw, bh, by * bw + n),
            None::<Error>,
        ),
    decreases n,
{
    if n > 0 {
        lemma_zero_cols_cleared(ac, map, bw, bh, by, n - 1);
        lemma_zero_step_cleared(ac, map, bw, bh, n - 1, by);
    }
}

#[verifier::spinoff_prover]
#[verifier::rlimit(40)]
proof fn lemma_zero_rows_cleared(ac: Seq<i32>, map: Seq<u8>, bw: int, bh: int, m: int)
    requires
        spec_tiling(map, bw, bh),
        0 <= m <= bh,
        bw >= 0,
    ensures
        spec_zero_rows((ac, None), map, bw, bh, m) == (spec_cleared_upto(ac, map, bw, bh, m * bw), None::<Error>),
    decreases m,
{
    if m == 0 {
        assert forall|i: int| 0 <= i < ac.len() implies !spec_slot_cleared(map, bw, bh, 0, i) by {
            if spec_slot_cleared(map, bw, bh, 0, i) {
                let b = i / 64;
                let (fx, fy) = choose|fx: int, fy: int|
                    spec_in_grid(bw, bh, fx, fy) && fy * bw + fx < 0 && #[trigger] spec_covers(
                        map,
                        bw,
                        fx,
                        fy,
                        b % bw,
                        b / bw,
                    );
                assert(fy * bw >= 0) by (nonlinear_arith)
                    requires
                        fy >= 0,
                        bw >= 0,
                ;
            }
        }
        assert(spec_cleared_upto(ac, map, bw, bh, 0) =~= ac);
    } else {
        lemma_zero_rows_cleared(ac, map, bw, bh, m - 1);
        lemma_zero_cols_cleared(ac, map, bw, bh, m - 1, bw);
        assert((m - 1) * bw + bw == m * bw) by (nonlinear_arith);
    }
}

/// On a map that tiles the grid, clearing the AC coefficients of non-DCT8x8
/// transforms sets to zero exactly the AC slots (every position of a block
/// but the first) of the blocks whose transform is not DCT8x8, keeps every
/// other coefficient, and never fails.
#[verifier::spinoff_prover]
#[verifier::rlimit(40)]
pub proof fn lemma_zero_non_dct8_clears_exactly(ac: Seq<i32>, map: Seq<u8>, bw: int, bh: int)
    requires
        spec_tiling(map, bw, bh),
        bw >= 0,
        bh >= 0,
    ensures
        spec_zero_non_dct8(ac, map, bw, bh) == (
            Seq::new(
                ac.len(),
                |i: int|
                    if 0 <= i < bw * bh * 64 && i % 64 != 0 && spec_entry_id(map[i / 64]) != 0 {
                        0i32
                    } else {
                        ac[i]
                    },
            ),
            None::<Error>,
        ),
{
    lemma_zero_rows_cleared(ac, map, bw, bh, bh);
    let want = Seq::new(
        ac.len(),
        |i: int|
            if 0 <= i < bw * bh * 64 && i % 64 != 0 && spec_entry_id(map[i / 64]) != 0 {
                0i32
            } else {
                ac[i]
            },
    );
    let got = spec_cleared_upto(ac, map, bw, bh, bh * bw);
    assert(bh * bw == bw * bh) by (nonlinear_arith);
    assert forall|i: int| 0 <= i < ac.len() implies got[i] == want[i] by {
        let cond = 0 <= i < bw * bh * 64 && i % 64 != 0 && spec_entry_id(map[i / 64]) != 0;
        if cond {
            assert(bw >= 1) by (nonlinear_arith)
                requires
                    0 <= i < bw * bh * 64,
                    bw >= 0,
                    bh >= 0,
            ;
            lemma_slot_coords(i, bw, bh);
            let b = i / 64;
            let x = b % bw;
            let y = b / bw;
            assert(spec_in_grid(bw, bh, x, y));
            let (fx, fy) = choose|fx: int, fy: int|
                spec_in_grid(bw, bh, fx, fy) && #[trigger] spec_covers(map, bw, fx, fy, x, y);
            crate::merge_map::lemma_grid_index(bw, bh, fx, fy);
            assert(spec_in_grid(bw, bh, fx, fy) && fy * bw + fx < bh * bw && spec_covers(map, bw, fx, fy, x, y));
            assert(spec_slot_cleared(map, bw, bh, bh * bw, i));
        } else {
            assert(!spec_slot_cleared(map, bw, bh, bh * bw, i));
        }
    }
    assert(got =~= want);
}

} // verus!

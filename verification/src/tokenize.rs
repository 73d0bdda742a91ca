use vstd::prelude::*;
use vstd::arithmetic::div_mod::{lemma_fundamental_div_mod, lemma_fundamental_div_mod_converse};
use crate::coeff_order::{
    lemma_zigzag_facts, spec_block_dim, spec_contains, spec_natural_order, spec_valid_order_8x8,
    spec_zigzag_8x8, token_shape_order,
};
use crate::error::Error;
use crate::transform::{
    block_shape_id, covered_blocks_x, covered_blocks_y, spec_canonical_for_shape, spec_covered_x,
    spec_covered_y, spec_entry_id, spec_is_first_block, spec_shape_id, spec_type_of_id,
    split_transform_entry, HfTransformType,
};
use crate::transform_map::{
    spec_transform_fits, spec_well_formed_map,
    spec_region_block, spec_region_in_ac, spec_storage_index, transform_coeff_index_to_block_storage,
};

verus! {

/// Number of non-zero-count buckets per block context.
pub const NON_ZERO_BUCKETS: usize = 37;

/// Number of zero-density contexts per block context.
pub const ZERO_DENSITY_CONTEXT_COUNT: usize = 458;

/// One AC token: the context whose histogram codes it and the value coded.
#[derive(Debug, Clone, Copy, PartialEq, Eq, Structural)]
pub struct AcToken {
    pub context: usize,
    pub value: u32,
}

/// Zigzag mapping of a signed value to an unsigned one: `0, -1, 1, -2, ...`
/// go to `0, 1, 2, 3, ...`.
pub open spec fn spec_pack_signed(x: int) -> int {
    if x >= 0 {
        2 * x
    } else {
        -2 * x - 1
    }
}

/// Packs a signed coefficient into the unsigned value that is entropy coded.
pub fn pack_signed(x: i32) -> (r: u32)
    requires
        x != i32::MIN,
    ensures
        r == spec_pack_signed(x as int),
{
    if x >= 0 {
        (x as u32) * 2
    } else {
        ((-x) as u32) * 2 - 1
    }
}

/// The decoder's inverse of `spec_pack_signed`: even values are
/// non-negative, odd values negative.
pub open spec fn spec_unpack_signed(u: int) -> int {
    if u % 2 == 0 {
        u / 2
    } else {
        -((u + 1) / 2)
    }
}

/// Unpacking a packed value gives it back.
pub proof fn lemma_unpack_pack(x: int)
    ensures
        spec_unpack_signed(spec_pack_signed(x)) == x,
        spec_pack_signed(x) >= 0,
{
}

/// Bucket of a (predicted) number of non-zero coefficients.
pub open spec fn spec_nonzero_bucket(nonzeros: nat) -> nat {
    if nonzeros < 8 {
        nonzeros
    } else if nonzeros < 64 {
        4 + nonzeros / 2
    } else {
        36
    }
}

/// Context of the non-zero-count token of a block.
pub open spec fn spec_nonzero_context(nonzeros: nat, block_context: nat, num_contexts: nat) -> nat {
    spec_nonzero_bucket(nonzeros) * num_contexts + block_context
}

/// Context of the token that codes how many non-zero coefficients a block has.
pub fn nonzero_context(nonzeros: usize, block_context: usize, num_contexts: usize) -> (r: usize)
    requires
        36 * num_contexts + block_context <= usize::MAX,
    ensures
        r == spec_nonzero_context(nonzeros as nat, block_context as nat, num_contexts as nat),
{
    let bucket = if nonzeros < 8 {
        nonzeros
    } else if nonzeros < 64 {
        4 + nonzeros / 2
    } else {
        36
    };
    assert(bucket * num_contexts <= 36 * num_contexts) by (nonlinear_arith)
        requires
            bucket <= 36,
    ;
    bucket * num_contexts + block_context
}

/// First zero-density context of a block context.
pub open spec fn spec_zero_density_offset(block_context: nat, num_contexts: nat) -> nat {
    num_contexts * 37 + 458 * block_context
}

/// First context of the coefficient tokens of a block context: after all
/// non-zero-count contexts, `ZERO_DENSITY_CONTEXT_COUNT` per block context.
pub fn zero_density_context_offset(block_context: usize, num_contexts: usize) -> (r: usize)
    requires
        num_contexts * 37 + 458 * block_context <= usize::MAX,
    ensures
        r == spec_zero_density_offset(block_context as nat, num_contexts as nat),
{
    num_contexts * NON_ZERO_BUCKETS + ZERO_DENSITY_CONTEXT_COUNT * block_context
}

/// Context part for how many non-zeros are left (a count per covered block,
/// 1..63).
pub open spec fn spec_num_nonzero_ctx(n: nat) -> nat {
    if n <= 1 {
        0
    } else if n == 2 {
        31
    } else if n <= 4 {
        62
    } else if n <= 8 {
        93
    } else if n <= 12 {
        123
    } else if n <= 20 {
        152
    } else if n <= 32 {
        180
    } else {
        206
    }
}

/// Context part for the scan position (per covered block, 1..63).
pub open spec fn spec_freq_ctx(k: nat) -> nat {
    if k < 1 {
        0
    } else if k < 16 {
        (k - 1) as nat
    } else if k < 32 {
        (15 + (k - 16) / 2) as nat
    } else if k < 64 {
        (23 + (k - 32) / 4) as nat
    } else {
        30
    }
}

/// Number of blocks `2^log` for the block counts a transform can cover.
pub open spec fn spec_blocks_of_log(log: nat) -> nat {
    if log == 0 {
        1
    } else if log == 1 {
        2
    } else if log == 2 {
        4
    } else if log == 3 {
        8
    } else if log == 4 {
        16
    } else if log == 5 {
        32
    } else if log == 6 {
        64
    } else if log == 7 {
        128
    } else if log == 8 {
        256
    } else if log == 9 {
        512
    } else {
        1024
    }
}

/// `log2(nb)` for the block counts a transform can cover.
pub open spec fn spec_log_of_blocks(nb: nat) -> nat {
    if nb <= 1 {
        0
    } else if nb == 2 {
        1
    } else if nb == 4 {
        2
    } else if nb == 8 {
        3
    } else if nb == 16 {
        4
    } else if nb == 32 {
        5
    } else if nb == 64 {
        6
    } else if nb == 128 {
        7
    } else if nb == 256 {
        8
    } else if nb == 512 {
        9
    } else {
        10
    }
}

/// Block counts a transform can cover: powers of two up to 1024.
pub open spec fn spec_block_count(nb: nat) -> bool {
    nb == 1 || nb == 2 || nb == 4 || nb == 8 || nb == 16 || nb == 32 || nb == 64 || nb == 128 || nb
        == 256 || nb == 512 || nb == 1024
}

/// Context of a coefficient token, from the non-zeros left, the scan
/// position, the transform's block count `2^log` and whether the previous
/// coefficient was non-zero; both counts are taken per covered block.
pub open spec fn spec_zero_density_context(nonzeros_left: nat, k: nat, log: nat, prev: nat) -> nat {
    let nb = spec_blocks_of_log(log);
    (spec_num_nonzero_ctx((nonzeros_left + nb - 1) as nat / nb) + spec_freq_ctx(k / nb)) * 2 + prev
}

fn blocks_of_log(log: usize) -> (r: usize)
    requires
        log <= 10,
    ensures
        r == spec_blocks_of_log(log as nat),
{
    match log {
        0 => 1,
        1 => 2,
        2 => 4,
        3 => 8,
        4 => 16,
        5 => 32,
        6 => 64,
        7 => 128,
        8 => 256,
        9 => 512,
        _ => 1024,
    }
}

/// `log2` of a transform's block count.
pub fn log2_block_count(nb: usize) -> (r: usize)
    requires
        spec_block_count(nb as nat),
    ensures
        r == spec_log_of_blocks(nb as nat),
        r <= 10,
        spec_blocks_of_log(r as nat) == nb,
{
    match nb {
        1 => 0,
        2 => 1,
        4 => 2,
        8 => 3,
        16 => 4,
        32 => 5,
        64 => 6,
        128 => 7,
        256 => 8,
        512 => 9,
        _ => 10,
    }
}

/// Context (relative to the block context's first zero-density context) of
/// the coefficient at scan position `k` of a transform covering `2^log`
/// blocks, with `nonzeros_left` non-zeros still to come.
pub fn zero_density_context(nonzeros_left: usize, k: usize, log_num_blocks: usize, prev: usize) -> (r:
    usize)
    requires
        log_num_blocks <= 10,
        prev <= 1,
        nonzeros_left <= 1048576,
    ensures
        r == spec_zero_density_context(nonzeros_left as nat, k as nat, log_num_blocks as nat, prev as nat),
        r <= 473,
{
    let nb = blocks_of_log(log_num_blocks);
    let n = (nonzeros_left + nb - 1) / nb;
    let kk = k / nb;
    let nz_ctx: usize = if n <= 1 {
        0
    } else if n == 2 {
        31
    } else if n <= 4 {
        62
    } else if n <= 8 {
        93
    } else if n <= 12 {
        123
    } else if n <= 20 {
        152
    } else if n <= 32 {
        180
    } else {
        206
    };
    let freq_ctx: usize = if kk < 1 {
        0
    } else if kk < 16 {
        kk - 1
    } else if kk < 32 {
        15 + (kk - 16) / 2
    } else if kk < 64 {
        23 + (kk - 32) / 4
    } else {
        30
    };
    (nz_ctx + freq_ctx) * 2 + prev
}

/// Predicted number of non-zeros of the block at (`bx`, `by`) from its
/// already coded neighbours: 32 at the origin, the one neighbour on the
/// first row or column, else the rounded-up mean of top and left.
pub open spec fn spec_predict_num_nonzeros(map: Seq<u32>, stride: int, bx: int, by: int) -> nat {
    if bx == 0 {
        if by == 0 {
            32
        } else {
            map[(by - 1) * stride] as nat
        }
    } else if by == 0 {
        map[bx - 1] as nat
    } else {
        (map[(by - 1) * stride + bx] + map[by * stride + bx - 1] + 1) as nat / 2
    }
}

/// Predicts the number of non-zero coefficients of a block from its top and
/// left neighbours, as the decoder does.
pub fn predict_num_nonzeros(num_nzeros_map: &[u32], stride: usize, bx: usize, by: usize) -> (r: u32)
    requires
        bx > 0 && by > 0 ==> (by - 1) * stride + bx < num_nzeros_map@.len() && by * stride + bx - 1
            < num_nzeros_map@.len() && num_nzeros_map@[(by - 1) * stride + bx]
            + num_nzeros_map@[by * stride + bx - 1] <= u32::MAX,
        bx == 0 && by > 0 ==> (by - 1) * stride < num_nzeros_map@.len(),
        bx > 0 && by == 0 ==> bx - 1 < num_nzeros_map@.len(),
    ensures
        r == spec_predict_num_nonzeros(num_nzeros_map@, stride as int, bx as int, by as int),
{
    let len = num_nzeros_map.len();
    if bx == 0 {
        if by == 0 {
            32
        } else {
            assert((by - 1) * stride <= by * stride) by (nonlinear_arith)
                requires
                    by >= 1,
            ;
            num_nzeros_map[(by - 1) * stride]
        }
    } else if by == 0 {
        num_nzeros_map[bx - 1]
    } else {
        assert((by - 1) * stride + bx < len);
        assert(by * stride + bx - 1 < len);
        let top = num_nzeros_map[(by - 1) * stride + bx];
        let left = num_nzeros_map[by * stride + bx - 1];
        let sum = top + left;
        sum / 2 + sum % 2
    }
}

/// The prediction of a block's non-zero count: 32 at the origin, the left
/// neighbour's count on the first row, the top neighbour's count in the
/// first column, and elsewhere the mean of top and left rounded up, so
/// that `top + left <= 2 * prediction <= top + left + 1`.
pub proof fn lemma_predict_num_nonzeros_rounds_up(map: Seq<u32>, stride: int, bx: int, by: int)
    requires
        bx >= 0,
        by >= 0,
    ensures
        ({
            let r = spec_predict_num_nonzeros(map, stride, bx, by) as int;
            &&& bx == 0 && by == 0 ==> r == 32
            &&& bx > 0 && by == 0 ==> r == map[bx - 1]
            &&& bx == 0 && by > 0 ==> r == map[(by - 1) * stride]
            &&& bx > 0 && by > 0 ==> {
                let top = map[(by - 1) * stride + bx] as int;
                let left = map[by * stride + bx - 1] as int;
                &&& top + left <= 2 * r <= top + left + 1
                &&& (top + left) % 2 == 1 ==> 2 * r == top + left + 1
                &&& (top + left) % 2 == 0 ==> 2 * r == top + left
            }
        }),
{
}

/// Block context of the default block-context map for a channel (0 = X,
/// 1 = Y, 2 = B) and a coefficient-order shape.
pub open spec fn spec_default_block_context(channel: nat, shape_id: nat) -> nat {
    let ch_remap: nat = if channel < 2 {
        if channel == 0 {
            1
        } else {
            0
        }
    } else {
        2
    };
    let shape: nat = if shape_id < 12 {
        shape_id
    } else {
        12
    };
    spec_default_ctx_map()[(ch_remap * 13 + shape) as int] as nat
}

/// The default block-context map: 13 shapes for each of the channels Y, X, B.
pub open spec fn spec_default_ctx_map() -> Seq<u8> {
    seq![
        0u8, 1, 2, 2, 3, 3, 4, 5, 6, 6, 6, 6, 6, 7, 8, 9, 9, 10, 11, 12, 13, 14, 14, 14, 14, 14, 7,
        8, 9, 9, 10, 11, 12, 13, 14, 14, 14, 14, 14,
    ]
}

fn default_ctx_map_entry(idx: usize) -> (r: u8)
    requires
        idx < 39,
    ensures
        r == spec_default_ctx_map()[idx as int],
{
    let table: [u8; 39] = [
        0, 1, 2, 2, 3, 3, 4, 5, 6, 6, 6, 6, 6, 7, 8, 9, 9, 10, 11, 12, 13, 14, 14, 14, 14, 14, 7,
        8, 9, 9, 10, 11, 12, 13, 14, 14, 14, 14, 14,
    ];
    assert(table@ =~= spec_default_ctx_map());
    table[idx]
}

/// Block context under the default block-context map.
pub fn default_block_context(channel: usize, shape_id: usize, _quant_lf_idx: usize) -> (r: usize)
    ensures
        r == spec_default_block_context(channel as nat, shape_id as nat),
        r < 15,
{
    let ch_remap: usize = if channel < 2 {
        channel ^ 1
    } else {
        2
    };
    assert(channel < 2 ==> (channel ^ 1usize) == (if channel == 0 { 1usize } else { 0usize })) by (bit_vector);
    let shape = if shape_id < 12 {
        shape_id
    } else {
        12
    };
    let idx = ch_remap * 13 + shape;
    default_ctx_map_entry(idx) as usize
}

/// Number of thresholds that `qf` exceeds among the first `n`.
pub open spec fn spec_qf_index(qf: u32, thresholds: Seq<u32>, n: int) -> nat
    decreases n,
{
    if n <= 0 {
        0
    } else {
        spec_qf_index(qf, thresholds, n - 1) + if qf > thresholds[n - 1] {
            1nat
        } else {
            0nat
        }
    }
}

/// Block context under a custom block-context map with quant-field
/// thresholds (and no LF thresholds); an index past the map gives 0.
pub open spec fn spec_custom_block_context(
    channel: nat,
    shape_id: nat,
    qf: u32,
    thresholds: Seq<u32>,
    context_map: Seq<u8>,
) -> nat {
    let ch_remap: nat = if channel < 2 {
        if channel == 0 {
            1
        } else {
            0
        }
    } else {
        2
    };
    let shape: nat = if shape_id < 12 {
        shape_id
    } else {
        12
    };
    let idx = (ch_remap * 13 + shape) * (thresholds.len() + 1) + spec_qf_index(
        qf,
        thresholds,
        thresholds.len() as int,
    );
    if idx < context_map.len() {
        context_map[idx as int] as nat
    } else {
        0
    }
}

/// Block context under a custom block-context map.
pub fn custom_block_context(
    channel: usize,
    shape_id: usize,
    qf: u32,
    qf_thresholds: &[u32],
    context_map: &[u8],
) -> (r: usize)
    requires
        39 * qf_thresholds@.len() + 38 <= usize::MAX,
    ensures
        r == spec_custom_block_context(
            channel as nat,
            shape_id as nat,
            qf,
            qf_thresholds@,
            context_map@,
        ),
        r < 256,
{
    let ch_remap: usize = if channel < 2 {
        channel ^ 1
    } else {
        2
    };
    assert(channel < 2 ==> (channel ^ 1usize) == (if channel == 0 { 1usize } else { 0usize })) by (bit_vector);
    let shape = if shape_id < 12 {
        shape_id
    } else {
        12
    };
    let n = qf_thresholds.len();
    let mut qf_idx: usize = 0;
    let mut i: usize = 0;
    while i < n
        invariant
            i <= n,
            n == qf_thresholds@.len(),
            qf_idx == spec_qf_index(qf, qf_thresholds@, i as int),
            qf_idx <= i,
        decreases n - i,
    {
        if qf > qf_thresholds[i] {
            qf_idx = qf_idx + 1;
        }
        i = i + 1;
    }
    let idx = ch_remap * 13 + shape;
    assert(idx * (n + 1) + qf_idx <= 39 * n + 38) by (nonlinear_arith)
        requires
            idx <= 38,
            qf_idx <= n,
    ;
    let idx = idx * (n + 1) + qf_idx;
    if idx < context_map.len() {
        context_map[idx] as usize
    } else {
        0
    }
}

/// Number of non-zero values of `vals` at positions `from..to`.
pub open spec fn spec_count_nonzero(vals: Seq<i32>, from: int, to: int) -> nat
    decreases to - from,
{
    if to <= from {
        0
    } else {
        spec_count_nonzero(vals, from, to - 1) + if vals[to - 1] != 0 {
            1nat
        } else {
            0nat
        }
    }
}

proof fn lemma_count_nonzero_front(vals: Seq<i32>, from: int, to: int)
    requires
        from < to,
    ensures
        spec_count_nonzero(vals, from, to) == spec_count_nonzero(vals, from + 1, to) + if vals[from]
            != 0 {
            1nat
        } else {
            0nat
        },
    decreases to - from,
{
    if to > from + 1 {
        lemma_count_nonzero_front(vals, from, to - 1);
        assert(spec_count_nonzero(vals, from + 1, to) == spec_count_nonzero(vals, from + 1, to - 1)
            + if vals[to - 1] != 0 {
            1nat
        } else {
            0nat
        });
    } else {
        assert(spec_count_nonzero(vals, from + 1, to) == 0);
        assert(spec_count_nonzero(vals, from, from) == 0);
    }
}

proof fn lemma_count_nonzero_bound(vals: Seq<i32>, from: int, to: int)
    requires
        from <= to,
    ensures
        spec_count_nonzero(vals, from, to) <= to - from,
    decreases to - from,
{
    if to > from {
        lemma_count_nonzero_bound(vals, from, to - 1);
    }
}

/// Tokens of the coefficients `vals[k..end]` in scan order, stopping after
/// the last non-zero one: each in the zero-density context of the non-zeros
/// left, its position and whether the previous coefficient was non-zero.
pub open spec fn spec_scan_tokens(
    vals: Seq<i32>,
    k: int,
    end: int,
    nz_left: nat,
    prev: nat,
    histo_offset: nat,
    log: nat,
) -> Seq<AcToken>
    decreases end - k,
{
    if k >= end || nz_left == 0 {
        Seq::empty()
    } else {
        let c = vals[k];
        seq![
            AcToken {
                context: (histo_offset + spec_zero_density_context(nz_left, k as nat, log, prev)) as usize,
                value: spec_pack_signed(c as int) as u32,
            },
        ] + spec_scan_tokens(
            vals,
            k + 1,
            end,
            if c != 0 {
                (nz_left - 1) as nat
            } else {
                nz_left
            },
            if c != 0 {
                1
            } else {
                0
            },
            histo_offset,
            log,
        )
    }
}

/// Tokens of one block (or multi-block transform) whose coefficients in scan
/// order are `vals`, the first `start` of them being its LF coefficients: the
/// count of non-zeros first, then the coefficients up to the last non-zero.
pub open spec fn spec_block_tokens(
    vals: Seq<i32>,
    start: int,
    end: int,
    log: nat,
    predicted: nat,
    block_context: nat,
    num_contexts: nat,
    context_offset: nat,
) -> Seq<AcToken> {
    let nonzeros = spec_count_nonzero(vals, start, end);
    let prev: nat = if nonzeros > end / 16 {
        0
    } else {
        1
    };
    seq![
        AcToken {
            context: (spec_nonzero_context(predicted, block_context, num_contexts) + context_offset) as usize,
            value: nonzeros as u32,
        },
    ] + spec_scan_tokens(
        vals,
        start,
        end,
        nonzeros,
        prev,
        spec_zero_density_offset(block_context, num_contexts) + context_offset,
        log,
    )
}

/// The contexts of a block stay inside `usize` for any block context below 256.
pub open spec fn spec_contexts_fit(num_contexts: nat, context_offset: nat) -> bool {
    num_contexts * 37 + 458 * 256 + 474 + context_offset <= usize::MAX
}

/// Appends the tokens of one transform (coefficients `vals` in scan order,
/// positions below `start` skipped) and returns its number of non-zeros.
fn emit_block_tokens(
    vals: &Vec<i32>,
    start: usize,
    end: usize,
    log: usize,
    predicted: u32,
    block_context: usize,
    num_contexts: usize,
    context_offset: usize,
    tokens: &mut Vec<AcToken>,
) -> (r: usize)
    requires
        start <= end <= 65536,
        log <= 10,
        vals.len() == end,
        forall|k: int| start <= k < end ==> #[trigger] vals@[k] != i32::MIN,
        block_context < 256,
        spec_contexts_fit(num_contexts as nat, context_offset as nat),
    ensures
        final(tokens)@ == old(tokens)@ + spec_block_tokens(
            vals@,
            start as int,
            end as int,
            log as nat,
            predicted as nat,
            block_context as nat,
            num_contexts as nat,
            context_offset as nat,
        ),
        r == spec_count_nonzero(vals@, start as int, end as int),
        r <= end - start,
{
    let ghost v = vals@;
    let mut nonzeros: usize = 0;
    let mut k: usize = start;
    while k < end
        invariant
            start <= k <= end,
            vals@ == v,
            vals.len() == end,
            nonzeros == spec_count_nonzero(v, start as int, k as int),
            nonzeros <= k - start,
        decreases end - k,
    {
        if vals[k] != 0 {
            nonzeros = nonzeros + 1;
        }
        k = k + 1;
    }
    assert(36 * num_contexts + block_context <= usize::MAX) by (nonlinear_arith)
        requires
            num_contexts * 37 + 458 * 256 + 474 + context_offset <= usize::MAX,
            block_context < 256,
    ;
    let nz_ctx = nonzero_context(predicted as usize, block_context, num_contexts);
    assert(spec_nonzero_bucket(predicted as nat) * num_contexts <= 36 * num_contexts) by (nonlinear_arith)
        requires
            spec_nonzero_bucket(predicted as nat) <= 36,
    ;
    let ghost target = old(tokens)@ + spec_block_tokens(
        v,
        start as int,
        end as int,
        log as nat,
        predicted as nat,
        block_context as nat,
        num_contexts as nat,
        context_offset as nat,
    );
    tokens.push(AcToken { context: nz_ctx + context_offset, value: nonzeros as u32 });
    let histo_offset = zero_density_context_offset(block_context, num_contexts) + context_offset;
    let mut nz_left = nonzeros;
    let mut prev: usize = if nonzeros > end / 16 {
        0
    } else {
        1
    };
    let mut k: usize = start;
    while k < end && nz_left > 0
        invariant
            start <= k <= end,
            end <= 65536,
            log <= 10,
            prev <= 1,
            vals@ == v,
            vals.len() == end,
            forall|t: int| start <= t < end ==> #[trigger] v[t] != i32::MIN,
            nz_left == spec_count_nonzero(v, k as int, end as int),
            nz_left <= end - k,
            histo_offset + 474 <= usize::MAX,
            tokens@ + spec_scan_tokens(
                v,
                k as int,
                end as int,
                nz_left as nat,
                prev as nat,
                histo_offset as nat,
                log as nat,
            ) == target,
        decreases end - k,
    {
        proof {
            lemma_count_nonzero_front(v, k as int, end as int);
            lemma_count_nonzero_bound(v, k + 1, end as int);
        }
        let ctx = histo_offset + zero_density_context(nz_left, k, log, prev);
        let coeff = vals[k];
        let ghost before = tokens@;
        tokens.push(AcToken { context: ctx, value: pack_signed(coeff) });
        proof {
            let rest = spec_scan_tokens(
                v,
                k + 1,
                end as int,
                if coeff != 0 { (nz_left - 1) as nat } else { nz_left as nat },
                if coeff != 0 { 1 } else { 0 },
                histo_offset as nat,
                log as nat,
            );
            assert(before + (seq![tokens@.last()] + rest) =~= tokens@ + rest);
        }
        prev = if coeff != 0 {
            1
        } else {
            0
        };
        if coeff != 0 {
            nz_left = nz_left - 1;
        }
        k = k + 1;
    }
    assert(tokens@ =~= target);
    proof {
        lemma_count_nonzero_bound(v, start as int, end as int);
    }
    nonzeros
}

/// The coefficients of a block gathered in the given scan order.
pub open spec fn spec_gather_8x8(coeffs: Seq<i32>, order: Seq<usize>) -> Seq<i32> {
    Seq::new(64, |k: int| coeffs[order[k] as int])
}

/// The scan order of a DCT8x8 block: the custom order if any, else the zigzag.
pub open spec fn spec_order_or_zigzag(custom_order: Option<Seq<usize>>) -> Seq<usize> {
    match custom_order {
        Some(o) => o,
        None => spec_zigzag_8x8(),
    }
}

/// The scan order a DCT8x8 block is tokenized in: `custom_order` if given,
/// else the zigzag.
pub open spec fn spec_block_order(custom_order: Option<&[usize; 64]>) -> Seq<usize> {
    spec_order_or_zigzag(
        match custom_order {
            Some(o) => Some(o@),
            None => None,
        },
    )
}

/// Appends the tokens of one DCT8x8 block (64 coefficients, DC at 0) and
/// returns its number of non-zero AC coefficients.
pub fn tokenize_block_8x8(
    coeffs: &[i32],
    _channel: usize,
    block_context: usize,
    num_contexts: usize,
    context_offset: usize,
    num_nzeros_left: u32,
    tokens: &mut Vec<AcToken>,
    custom_order: Option<&[usize; 64]>,
) -> (r: usize)
    requires
        coeffs@.len() >= 64,
        block_context < 256,
        spec_contexts_fit(num_contexts as nat, context_offset as nat),
        custom_order matches Some(o) ==> forall|k: int| 0 <= k < 64 ==> #[trigger] o@[k] < 64,
        forall|k: int|
            1 <= k < 64 ==> #[trigger] spec_gather_8x8(coeffs@, spec_block_order(custom_order))[k] != i32::MIN,
    ensures
        final(tokens)@ == old(tokens)@ + spec_block_tokens(
            spec_gather_8x8(
                coeffs@,
                spec_order_or_zigzag(
                    match custom_order {
                        Some(o) => Some(o@),
                        None => None,
                    },
                ),
            ),
            1,
            64,
            0,
            num_nzeros_left as nat,
            block_context as nat,
            num_contexts as nat,
            context_offset as nat,
        ),
        r == spec_count_nonzero(
            spec_gather_8x8(
                coeffs@,
                spec_order_or_zigzag(
                    match custom_order {
                        Some(o) => Some(o@),
                        None => None,
                    },
                ),
            ),
            1,
            64,
        ),
        r <= 63,
{
    let default_order = crate::coeff_order::natural_coeff_order_8x8();
    let order: &[usize; 64] = match custom_order {
        Some(o) => o,
        None => &default_order,
    };
    assert(forall|k: int| 0 <= k < 64 ==> #[trigger] spec_zigzag_8x8()[k] < 64) by {
        assert forall|k: int| 0 <= k < 64 implies #[trigger] spec_zigzag_8x8()[k] < 64 by {}
    }
    let ghost want = spec_gather_8x8(coeffs@, order@);
    let mut vals: Vec<i32> = Vec::new();
    let mut k: usize = 0;
    while k < 64
        invariant
            k <= 64,
            coeffs@.len() >= 64,
            forall|t: int| 0 <= t < 64 ==> #[trigger] order@[t] < 64,
            want == spec_gather_8x8(coeffs@, order@),
            vals@ =~= want.subrange(0, k as int),
        decreases 64 - k,
    {
        let o = order[k];
        vals.push(coeffs[o]);
        k = k + 1;
    }
    assert(vals@ =~= want);
    assert(order@ == spec_block_order(custom_order));
    assert forall|k: int| 1 <= k < 64 implies #[trigger] vals@[k] != i32::MIN by {
        assert(vals@[k] == spec_gather_8x8(coeffs@, spec_block_order(custom_order))[k]);
    }
    emit_block_tokens(&vals, 1, 64, 0, num_nzeros_left, block_context, num_contexts, context_offset, tokens)
}

/// A custom block-context map: quant-field thresholds, the map from
/// (channel, shape, quant segment) to block context, and how many block
/// contexts it uses.
pub struct CustomBlockCtx {
    pub qf_thresholds: Vec<u32>,
    pub context_map: Vec<u8>,
    pub num_contexts: usize,
}

/// What the region tokenizer reads, as plain values: the coefficients of the
/// channels Y, X, B (in that order), the transform map, the region, the
/// context layout and the optional custom orders and block-context map.
pub struct HfRegion {
    pub ac: Seq<Seq<i32>>,
    pub map: Seq<u8>,
    pub full_bw: int,
    pub x0: int,
    pub y0: int,
    pub rw: int,
    pub rh: int,
    pub num_contexts: nat,
    pub context_offset: nat,
    pub orders: Option<Seq<Seq<usize>>>,
    pub quant: Option<Seq<u8>>,
    pub block_ctx: Option<(Seq<u32>, Seq<u8>)>,
}

/// Channel index (0 = X, 1 = Y, 2 = B) of the `ci`-th channel in coding
/// order Y, X, B.
pub open spec fn spec_channel_index(ci: int) -> nat {
    if ci == 0 {
        1
    } else if ci == 1 {
        0
    } else {
        2
    }
}

/// Block context of channel `c` for a block of shape `shape` at map index `gidx`.
pub open spec fn spec_region_block_ctx(r: HfRegion, c: nat, shape: nat, gidx: int) -> nat {
    match (r.quant, r.block_ctx) {
        (Some(q), Some(b)) => spec_custom_block_context(c, shape, q[gidx] as u32, b.0, b.1),
        _ => spec_default_block_context(c, shape),
    }
}

/// Transform whose first block is at (`bx`, `by`) of the region.
pub open spec fn spec_cell_transform(r: HfRegion, bx: int, by: int) -> HfTransformType {
    spec_type_of_id(spec_entry_id(r.map[spec_region_block(r.full_bw, r.x0, r.y0, bx, by)]) as int)
}

/// Scan order of the `ci`-th channel for the transform at (`bx`, `by`): the
/// channel's 8x8 order for DCT8x8, else the order of the transform's shape.
pub open spec fn spec_cell_order(r: HfRegion, ci: int, bx: int, by: int) -> Seq<usize> {
    let t = spec_cell_transform(r, bx, by);
    if t == HfTransformType::DCT {
        spec_order_or_zigzag(
            match r.orders {
                Some(o) => Some(o[ci]),
                None => None,
            },
        )
    } else {
        match spec_canonical_for_shape(spec_shape_id(t) as int) {
            Some(ct) => spec_natural_order(spec_covered_x(ct), spec_covered_y(ct)),
            None => Seq::empty(),
        }
    }
}

/// Coefficients, in scan order, of the `ci`-th channel of the transform at
/// (`bx`, `by`).
pub open spec fn spec_cell_vals(r: HfRegion, ci: int, bx: int, by: int) -> Seq<i32> {
    let t = spec_cell_transform(r, bx, by);
    let cx = spec_covered_x(t);
    let order = spec_cell_order(r, ci, bx, by);
    Seq::new(
        cx * spec_covered_y(t) * 64,
        |k: int| r.ac[ci][spec_storage_index(r.full_bw, r.x0 + bx, r.y0 + by, cx as int, order[k] as int)],
    )
}

/// `m` with the `cx` x `cy` rectangle at (`bx`, `by`) of a `rw`-wide grid set to `v`.
pub open spec fn spec_fill_rect(m: Seq<u32>, rw: int, bx: int, by: int, cx: int, cy: int, v: u32) -> Seq<u32> {
    Seq::new(
        m.len(),
        |i: int|
            if by <= i / rw < by + cy && bx <= i % rw < bx + cx {
                v
            } else {
                m[i]
            },
    )
}

/// Tokens that the `ci`-th channel of the transform at (`bx`, `by`) adds,
/// and its map of non-zero counts afterwards (`m` before): every covered
/// block records the transform's non-zeros per block, rounded up.
pub open spec fn spec_channel_effect(r: HfRegion, ci: int, bx: int, by: int, m: Seq<u32>) -> (Seq<AcToken>, Seq<u32>) {
    let t = spec_cell_transform(r, bx, by);
    let cx = spec_covered_x(t);
    let cy = spec_covered_y(t);
    let nb = cx * cy;
    let gidx = spec_region_block(r.full_bw, r.x0, r.y0, bx, by);
    let bc = spec_region_block_ctx(r, spec_channel_index(ci), spec_shape_id(t), gidx);
    let predicted = spec_predict_num_nonzeros(m, r.rw, bx, by);
    let vals = spec_cell_vals(r, ci, bx, by);
    let toks = spec_block_tokens(
        vals,
        nb as int,
        (nb * 64) as int,
        spec_log_of_blocks(nb),
        predicted,
        bc,
        r.num_contexts,
        r.context_offset,
    );
    let nz = spec_count_nonzero(vals, nb as int, (nb * 64) as int);
    (toks, spec_fill_rect(m, r.rw, bx, by, cx as int, cy as int, ((nz + nb - 1) as nat / nb) as u32))
}

/// State after the `ci`-th channel of the transform at (`bx`, `by`).
pub open spec fn spec_channel_step(st: (Seq<AcToken>, Seq<Seq<u32>>), r: HfRegion, ci: int, bx: int, by: int) -> (Seq<AcToken>, Seq<Seq<u32>>) {
    let c = spec_channel_index(ci) as int;
    let e = spec_channel_effect(r, ci, bx, by, st.1[c]);
    (st.0 + e.0, st.1.update(c, e.1))
}

/// Tokenizes the block at (`bx`, `by`) when it starts a transform; fails on
/// an unknown transform id or a transform leaving the region.
pub open spec fn spec_cell_step(st: (Seq<AcToken>, Seq<Seq<u32>>), r: HfRegion, bx: int, by: int) -> Result<(Seq<AcToken>, Seq<Seq<u32>>), Error> {
    let raw = r.map[spec_region_block(r.full_bw, r.x0, r.y0, bx, by)];
    if !spec_is_first_block(raw) {
        Ok(st)
    } else if spec_entry_id(raw) >= 27 {
        Err(Error::InvalidVarDCTTransform(spec_entry_id(raw) as usize))
    } else {
        let t = spec_type_of_id(spec_entry_id(raw) as int);
        if bx + spec_covered_x(t) > r.rw || by + spec_covered_y(t) > r.rh {
            Err(Error::HFBlockOutOfBounds)
        } else {
            Ok(spec_channel_step(spec_channel_step(spec_channel_step(st, r, 0, bx, by), r, 1, bx, by), r, 2, bx, by))
        }
    }
}

/// State after the first `n` blocks of row `by`.
pub open spec fn spec_hf_cols(res: Result<(Seq<AcToken>, Seq<Seq<u32>>), Error>, r: HfRegion, by: int, n: int) -> Result<(Seq<AcToken>, Seq<Seq<u32>>), Error>
    decreases n,
{
    if n <= 0 {
        res
    } else {
        match spec_hf_cols(res, r, by, n - 1) {
            Ok(s) => spec_cell_step(s, r, n - 1, by),
            Err(e) => Err(e),
        }
    }
}

/// Starting state: no tokens, all non-zero counts zero.
pub open spec fn spec_hf_start(r: HfRegion) -> (Seq<AcToken>, Seq<Seq<u32>>) {
    let zeros = Seq::new((r.rw * r.rh) as nat, |i: int| 0u32);
    (Seq::empty(), seq![zeros, zeros, zeros])
}

/// State after the first `n` rows of the region.
pub open spec fn spec_hf_rows(r: HfRegion, n: int) -> Result<(Seq<AcToken>, Seq<Seq<u32>>), Error>
    decreases n,
{
    if n <= 0 {
        Ok(spec_hf_start(r))
    } else {
        spec_hf_cols(spec_hf_rows(r, n - 1), r, n - 1, r.rw)
    }
}

/// Whether the block at (`bx`, `by`) of the region starts a transform that
/// is tokenized: a first block of a known transform that fits the region.
pub open spec fn spec_cell_tokenized(r: HfRegion, bx: int, by: int) -> bool {
    let raw = r.map[spec_region_block(r.full_bw, r.x0, r.y0, bx, by)];
    let t = spec_type_of_id(spec_entry_id(raw) as int);
    &&& spec_is_first_block(raw)
    &&& spec_entry_id(raw) < 27
    &&& bx + spec_covered_x(t) <= r.rw
    &&& by + spec_covered_y(t) <= r.rh
}

/// No coefficient that the transform at (`bx`, `by`) codes as a token (its
/// scan positions after the lowest-frequency ones, in every channel) is
/// `i32::MIN`.
pub open spec fn spec_cell_no_min(r: HfRegion, bx: int, by: int) -> bool {
    let t = spec_cell_transform(r, bx, by);
    let nb = spec_covered_x(t) * spec_covered_y(t);
    forall|ci: int, k: int|
        0 <= ci < 3 && nb <= k < nb * 64 ==> #[trigger] spec_cell_vals(r, ci, bx, by)[k] != i32::MIN
}

/// No coefficient that tokenizing the region codes as a token is `i32::MIN`.
pub open spec fn spec_region_no_min(r: HfRegion) -> bool {
    forall|bx: int, by: int|
        0 <= bx < r.rw && 0 <= by < r.rh && spec_cell_tokenized(r, bx, by) ==> #[trigger] spec_cell_no_min(
            r,
            bx,
            by,
        )
}

/// Tokens of a region, or the error of its first bad transform in raster order.
pub open spec fn spec_tokenize_region(r: HfRegion) -> Result<Seq<AcToken>, Error> {
    match spec_hf_rows(r, r.rh) {
        Ok(s) => Ok(s.0),
        Err(e) => Err(e),
    }
}

proof fn lemma_hf_cols_error_sticks(e: Error, r: HfRegion, by: int, n: int)
    ensures
        spec_hf_cols(Err(e), r, by, n) == Err::<(Seq<AcToken>, Seq<Seq<u32>>), Error>(e),
    decreases n,
{
    if n > 0 {
        lemma_hf_cols_error_sticks(e, r, by, n - 1);
    }
}

proof fn lemma_hf_cols_error_from(res: Result<(Seq<AcToken>, Seq<Seq<u32>>), Error>, r: HfRegion, by: int, n: int, m: int, e: Error)
    requires
        0 <= n <= m,
        spec_hf_cols(res, r, by, n) == Err::<(Seq<AcToken>, Seq<Seq<u32>>), Error>(e),
    ensures
        spec_hf_cols(res, r, by, m) == Err::<(Seq<AcToken>, Seq<Seq<u32>>), Error>(e),
    decreases m - n,
{
    if m > n {
        lemma_hf_cols_error_from(res, r, by, n, m - 1, e);
    }
}

proof fn lemma_hf_rows_error_from(r: HfRegion, n: int, m: int, e: Error)
    requires
        0 <= n <= m,
        spec_hf_rows(r, n) == Err::<(Seq<AcToken>, Seq<Seq<u32>>), Error>(e),
    ensures
        spec_hf_rows(r, m) == Err::<(Seq<AcToken>, Seq<Seq<u32>>), Error>(e),
    decreases m - n,
{
    if m > n {
        lemma_hf_rows_error_from(r, n, m - 1, e);
        lemma_hf_cols_error_sticks(e, r, m - 1, r.rw);
    }
}

/// Every transform covers a power-of-two number of blocks, and the canonical
/// transform of its shape covers as many.
pub(crate) proof fn lemma_transform_blocks(t: HfTransformType)
    ensures
        spec_block_count(spec_covered_x(t) * spec_covered_y(t)),
        1 <= spec_covered_x(t) <= 32,
        1 <= spec_covered_y(t) <= 32,
        spec_canonical_for_shape(spec_shape_id(t) as int) is Some,
        spec_covered_x(spec_canonical_for_shape(spec_shape_id(t) as int)->0) * spec_covered_y(
            spec_canonical_for_shape(spec_shape_id(t) as int)->0,
        ) == spec_covered_x(t) * spec_covered_y(t),
{
    match t {
        HfTransformType::DCT => {
            assert(spec_covered_x(t) == 1);
            assert(spec_covered_y(t) == 1);
            assert(spec_covered_x(t) * spec_covered_y(t) == 1);
            assert(spec_block_count(1));
        },
        HfTransformType::IDENTITY => {},
        HfTransformType::DCT2X2 => {},
        HfTransformType::DCT4X4 => {},
        HfTransformType::DCT16X16 => {},
        HfTransformType::DCT32X32 => {},
        HfTransformType::DCT16X8 => {},
        HfTransformType::DCT8X16 => {},
        HfTransformType::DCT32X8 => {},
        HfTransformType::DCT8X32 => {},
        HfTransformType::DCT32X16 => {},
        HfTransformType::DCT16X32 => {},
        HfTransformType::DCT4X8 => {},
        HfTransformType::DCT8X4 => {},
        HfTransformType::AFV0 => {},
        HfTransformType::AFV1 => {},
        HfTransformType::AFV2 => {},
        HfTransformType::AFV3 => {},
        HfTransformType::DCT64X64 => {},
        HfTransformType::DCT64X32 => {},
        HfTransformType::DCT32X64 => {},
        HfTransformType::DCT128X128 => {},
        HfTransformType::DCT128X64 => {},
        HfTransformType::DCT64X128 => {},
        HfTransformType::DCT256X256 => {},
        HfTransformType::DCT256X128 => {},
        HfTransformType::DCT128X256 => {},
    }
}

/// A coefficient of a transform that fits in the region is stored inside the
/// region's blocks.
pub(crate) proof fn lemma_storage_in_region(
    full_bw: int,
    x0: int,
    y0: int,
    rw: int,
    rh: int,
    bx: int,
    by: int,
    cx: int,
    cy: int,
    coeff: int,
)
    requires
        full_bw >= 0,
        x0 >= 0,
        y0 >= 0,
        0 <= bx,
        0 <= by,
        1 <= cx,
        1 <= cy,
        bx + cx <= rw,
        by + cy <= rh,
        0 <= coeff < cx * cy * 64,
    ensures
        0 <= spec_storage_index(full_bw, x0 + bx, y0 + by, cx, coeff) < ((y0 + rh - 1) * full_bw
            + x0 + rw) * 64,
        y0 + by + coeff / (cx * 8) / 8 < y0 + rh,
{
    let xsize = cx * 8;
    let x = coeff % xsize;
    let y = coeff / xsize;
    assert(0 <= x < xsize && 0 <= y) by (nonlinear_arith)
        requires
            xsize >= 8,
            x == coeff % xsize,
            y == coeff / xsize,
            coeff >= 0,
    ;
    assert(y < cy * 8) by (nonlinear_arith)
        requires
            xsize == cx * 8,
            xsize >= 8,
            y == coeff / xsize,
            coeff < cx * cy * 64,
            coeff >= 0,
    ;
    assert(x / 8 < cx && y / 8 < cy) by (nonlinear_arith)
        requires
            0 <= x < cx * 8,
            0 <= y < cy * 8,
    ;
    let brow = y0 + by + y / 8;
    let bcol = x0 + bx + x / 8;
    assert(brow * full_bw <= (y0 + rh - 1) * full_bw) by (nonlinear_arith)
        requires
            brow <= y0 + rh - 1,
            full_bw >= 0,
    ;
    assert(0 <= brow * full_bw) by (nonlinear_arith)
        requires
            brow >= 0,
            full_bw >= 0,
    ;
    assert((y % 8) * 8 + x % 8 < 64 && 0 <= (y % 8) * 8 + x % 8) by (nonlinear_arith)
        requires
            x >= 0,
            y >= 0,
    ;
}

/// Appends the tokens of the `ci`-th channel of the transform at (`bx`, `by`)
/// and records its non-zeros in `nz`.
fn tokenize_channel(
    ac: &[i32],
    ci: usize,
    c: usize,
    nz: &mut Vec<u32>,
    tokens: &mut Vec<AcToken>,
    full_bw: usize,
    x0: usize,
    y0: usize,
    rw: usize,
    bx: usize,
    by: usize,
    gidx: usize,
    transform: HfTransformType,
    cx: usize,
    cy: usize,
    shape_id: usize,
    order: &Vec<usize>,
    num_contexts: usize,
    context_offset: usize,
    raw_quant_map: Option<&[u8]>,
    block_ctx_info: Option<&CustomBlockCtx>,
    Ghost(reg): Ghost<HfRegion>,
)
    requires
        ci < 3,
        c == spec_channel_index(ci as int),
        reg.ac.len() == 3,
        reg.ac[ci as int] == ac@,
        reg.full_bw == full_bw,
        reg.x0 == x0,
        reg.y0 == y0,
        reg.rw == rw,
        reg.num_contexts == num_contexts,
        reg.context_offset == context_offset,
        reg.quant == (match raw_quant_map {
            Some(q) => Some(q@),
            None => None,
        }),
        reg.block_ctx == (match block_ctx_info {
            Some(b) => Some((b.qf_thresholds@, b.context_map@)),
            None => None,
        }),
        raw_quant_map matches Some(q) ==> gidx < q@.len(),
        block_ctx_info matches Some(b) ==> 39 * b.qf_thresholds@.len() + 38 <= usize::MAX,
        gidx == spec_region_block(full_bw as int, x0 as int, y0 as int, bx as int, by as int),
        transform == spec_cell_transform(reg, bx as int, by as int),
        cx == spec_covered_x(transform),
        cy == spec_covered_y(transform),
        shape_id == spec_shape_id(transform),
        bx + cx <= rw,
        0 < rw,
        order@ == spec_cell_order(reg, ci as int, bx as int, by as int),
        order.len() == cx * cy * 64,
        forall|k: int| 0 <= k < order.len() ==> #[trigger] order@[k] < cx * cy * 64,
        forall|k: int| 0 <= k < cx * cy * 64 ==> {
            let si = #[trigger] spec_storage_index(full_bw as int, x0 + bx, y0 + by, cx as int, k);
            &&& 0 <= si < ac@.len()
            &&& y0 + by + k / (cx as int * 8) / 8 <= usize::MAX
        },
        spec_cell_no_min(reg, bx as int, by as int),
        spec_contexts_fit(num_contexts as nat, context_offset as nat),
        old(nz).len() == reg.rw * reg.rh,
        by < reg.rh,
        by + cy <= reg.rh,
        x0 + bx <= usize::MAX,
        y0 + by <= usize::MAX,
        forall|i: int| 0 <= i < old(nz).len() ==> #[trigger] old(nz)@[i] <= 64,
    ensures
        final(tokens)@ == old(tokens)@ + spec_channel_effect(reg, ci as int, bx as int, by as int, old(nz)@).0,
        final(nz)@ == spec_channel_effect(reg, ci as int, bx as int, by as int, old(nz)@).1,
        final(nz).len() == old(nz).len(),
        forall|i: int| 0 <= i < final(nz).len() ==> #[trigger] final(nz)@[i] <= 64,
{
    proof {
        lemma_transform_blocks(transform);
    }
    let bc = match (raw_quant_map, block_ctx_info) {
        (Some(q), Some(b)) => custom_block_context(
            c,
            shape_id,
            q[gidx] as u32,
            b.qf_thresholds.as_slice(),
            b.context_map.as_slice(),
        ),
        _ => default_block_context(c, shape_id, 0),
    };
    let ghost m = nz@;
    let len = nz.len();
    let rh_g: Ghost<int> = Ghost(reg.rh);
    proof {
        if bx > 0 && by > 0 {
            assert((by - 1) * rw + bx < rw * reg.rh && by * rw + bx - 1 < rw * reg.rh) by (nonlinear_arith)
                requires
                    1 <= by < reg.rh,
                    1 <= bx < rw,
            ;
            assert(m[(by - 1) * rw + bx] <= 64);
            assert(m[by * rw + bx - 1] <= 64);
        }
        if bx == 0 && by > 0 {
            assert((by - 1) * rw < rw * reg.rh) by (nonlinear_arith)
                requires
                    1 <= by < reg.rh,
                    1 <= rw,
            ;
        }
        if bx > 0 && by == 0 {
            assert(bx - 1 < rw * reg.rh) by (nonlinear_arith)
                requires
                    0 <= by < reg.rh,
                    1 <= bx < rw,
            ;
        }
    }
    let predicted = predict_num_nonzeros(nz.as_slice(), rw, bx, by);
    let nb = cx * cy;
    let total = nb * 64;
    let ghost want = spec_cell_vals(reg, ci as int, bx as int, by as int);
    let ac_len = ac.len();
    let mut vals: Vec<i32> = Vec::new();
    let mut k: usize = 0;
    while k < total
        invariant
            k <= total,
            total == cx * cy * 64,
            total <= 65536,
            ac_len == ac@.len(),
            order.len() == total,
            forall|t: int| 0 <= t < order.len() ==> #[trigger] order@[t] < cx * cy * 64,
            forall|t: int| 0 <= t < cx * cy * 64 ==> {
                let si = #[trigger] spec_storage_index(full_bw as int, x0 + bx, y0 + by, cx as int, t);
                &&& 0 <= si < ac@.len()
                &&& y0 + by + t / (cx as int * 8) / 8 <= usize::MAX
            },
            1 <= cx <= 32,
            1 <= cy <= 32,
            x0 + bx <= usize::MAX,
            y0 + by <= usize::MAX,
            want.len() == total,
            forall|t: int| 0 <= t < total ==> #[trigger] want[t] == ac@[spec_storage_index(
                full_bw as int,
                x0 + bx,
                y0 + by,
                cx as int,
                order@[t] as int,
            )],
            vals@ =~= want.subrange(0, k as int),
        decreases total - k,
    {
        let o = order[k];
        assert(spec_storage_index(full_bw as int, x0 + bx, y0 + by, cx as int, o as int) < ac@.len());
        let si = transform_coeff_index_to_block_storage(full_bw, x0 + bx, y0 + by, cx, o);
        vals.push(ac[si]);
        k = k + 1;
    }
    assert(vals@ =~= want);
    let log = log2_block_count(nb);
    let nz_count = emit_block_tokens(&vals, nb, total, log, predicted, bc, num_contexts, context_offset, tokens);
    assert(nz_count + nb - 1 <= 64 * nb) by (nonlinear_arith)
        requires
            nz_count <= total - nb,
            total == nb * 64,
            nb >= 1,
    ;
    let per_block = (nz_count + nb - 1) / nb;
    assert(per_block <= 64) by (nonlinear_arith)
        requires
            per_block == (nz_count + nb - 1) as int / nb as int,
            nz_count + nb - 1 <= 64 * nb,
            nb >= 1,
    ;
    let v = per_block as u32;
    let ghost rhv = reg.rh;
    let mut iy: usize = 0;
    while iy < cy
        invariant
            iy <= cy,
            0 < rw,
            bx + cx <= rw,
            by + cy <= rhv,
            len == rw * rhv,
            nz.len() == len,
            m.len() == len,
            v <= 64,
            forall|i: int| 0 <= i < len ==> #[trigger] m[i] <= 64,
            forall|i: int|
                0 <= i < len ==> #[trigger] nz@[i] == if by <= i / (rw as int) < by + iy && bx <= i
                    % (rw as int) < bx + cx {
                    v
                } else {
                    m[i]
                },
        decreases cy - iy,
    {
        let mut ix: usize = 0;
        while ix < cx
            invariant
                iy < cy,
                ix <= cx,
                0 < rw,
                bx + cx <= rw,
                by + cy <= rhv,
                len == rw * rhv,
                nz.len() == len,
                m.len() == len,
                v <= 64,
                forall|i: int| 0 <= i < len ==> #[trigger] m[i] <= 64,
                forall|i: int|
                    0 <= i < len ==> #[trigger] nz@[i] == if (by <= i / (rw as int) < by + iy && bx
                        <= i % (rw as int) < bx + cx) || (i / (rw as int) == by + iy && bx <= i % (
                    rw as int) < bx + ix) {
                        v
                    } else {
                        m[i]
                    },
            decreases cx - ix,
        {
            assert((by + iy) * rw + (bx + ix) < rw * rhv && by + iy <= (by + iy) * rw) by (nonlinear_arith)
                requires
                    by + iy < rhv,
                    bx + ix < rw,
                    rw >= 1,
            ;
            let row = by + iy;
            let col = bx + ix;
            let j = row * rw + col;
            proof {
                lemma_fundamental_div_mod_converse(j as int, rw as int, row as int, col as int);
            }
            let ghost before = nz@;
            nz.set(j, v);
            proof {
                assert forall|i: int| 0 <= i < len implies #[trigger] nz@[i] == if (by <= i / (
                rw as int) < by + iy && bx <= i % (rw as int) < bx + cx) || (i / (rw as int) == by
                    + iy && bx <= i % (rw as int) < bx + ix + 1) {
                    v
                } else {
                    m[i]
                } by {
                    if i != j {
                        lemma_fundamental_div_mod(i, rw as int);
                        assert(before[i] == nz@[i]);
                        if i / (rw as int) == row && i % (rw as int) == col {
                            assert((rw as int) * (i / (rw as int)) == (row as int) * (rw as int)) by (nonlinear_arith)
                                requires
                                    i / (rw as int) == row,
                            ;
                        }
                    }
                }
            }
            ix = ix + 1;
        }
        iy = iy + 1;
    }
    proof {
        let want_m = spec_fill_rect(m, rw as int, bx as int, by as int, cx as int, cy as int, v);
        assert(nz@ =~= want_m);
        assert(v == ((nz_count + nb - 1) as nat / nb as nat) as u32);
    }
}

/// The plain values that the region tokenizer reads.
pub open spec fn spec_hf_region(
    ac_x: &[i32],
    ac_y: &[i32],
    ac_b: &[i32],
    transform_map: &[u8],
    full_bw: usize,
    x0: usize,
    y0: usize,
    rw: usize,
    rh: usize,
    num_contexts: usize,
    context_offset: usize,
    custom_orders_8x8: Option<&[[usize; 64]; 3]>,
    raw_quant_map: Option<&[u8]>,
    block_ctx_info: Option<&CustomBlockCtx>,
) -> HfRegion {
    HfRegion {
        ac: seq![ac_y@, ac_x@, ac_b@],
        map: transform_map@,
        full_bw: full_bw as int,
        x0: x0 as int,
        y0: y0 as int,
        rw: rw as int,
        rh: rh as int,
        num_contexts: num_contexts as nat,
        context_offset: context_offset as nat,
        orders: match custom_orders_8x8 {
            Some(o) => Some(seq![o[0]@, o[1]@, o[2]@]),
            None => None,
        },
        quant: match raw_quant_map {
            Some(q) => Some(q@),
            None => None,
        },
        block_ctx: match block_ctx_info {
            Some(b) => Some((b.qf_thresholds@, b.context_map@)),
            None => None,
        },
    }
}

/// Tokens of the AC coefficients of the `rw` x `rh` region at (`x0`, `y0`):
/// for every block that starts a transform, in raster order, the channels
/// Y, X, B in turn give a count of non-zeros and then the coefficients in
/// scan order up to the last non-zero, each token in its context. Fails with
/// `InvalidVarDCTTransform` on the first transform id that names no
/// transform and with `HFBlockOutOfBounds` on the first transform that
/// leaves the region.
pub fn tokenize_hf_region(
    ac_x: &[i32],
    ac_y: &[i32],
    ac_b: &[i32],
    transform_map: &[u8],
    full_bw: usize,
    x0: usize,
    y0: usize,
    rw: usize,
    rh: usize,
    num_contexts: usize,
    context_offset: usize,
    custom_orders_8x8: Option<&[[usize; 64]; 3]>,
    raw_quant_map: Option<&[u8]>,
    block_ctx_info: Option<&CustomBlockCtx>,
) -> (r: Result<Vec<AcToken>, Error>)
    requires
        rw * rh <= usize::MAX,
        x0 + rw <= usize::MAX,
        y0 + rh <= usize::MAX,
        spec_region_in_ac((transform_map@.len() * 64) as int, full_bw as int, x0 as int, y0 as int, rw as int, rh as int),
        spec_region_in_ac(ac_x@.len() as int, full_bw as int, x0 as int, y0 as int, rw as int, rh as int),
        spec_region_in_ac(ac_y@.len() as int, full_bw as int, x0 as int, y0 as int, rw as int, rh as int),
        spec_region_in_ac(ac_b@.len() as int, full_bw as int, x0 as int, y0 as int, rw as int, rh as int),
        raw_quant_map matches Some(q) ==> spec_region_in_ac((q@.len() * 64) as int, full_bw as int, x0 as int, y0 as int, rw as int, rh as int),
        block_ctx_info matches Some(b) ==> 39 * b.qf_thresholds@.len() + 38 <= usize::MAX,
        custom_orders_8x8 matches Some(o) ==> forall|c: int, k: int| 0 <= c < 3 && 0 <= k < 64 ==> #[trigger] o[c]@[k] < 64,
        spec_region_no_min(
            spec_hf_region(
                ac_x,
                ac_y,
                ac_b,
                transform_map,
                full_bw,
                x0,
                y0,
                rw,
                rh,
                num_contexts,
                context_offset,
                custom_orders_8x8,
                raw_quant_map,
                block_ctx_info,
            ),
        ),
        spec_contexts_fit(num_contexts as nat, context_offset as nat),
    ensures
        match r {
            Ok(t) => spec_tokenize_region(
                spec_hf_region(
                    ac_x,
                    ac_y,
                    ac_b,
                    transform_map,
                    full_bw,
                    x0,
                    y0,
                    rw,
                    rh,
                    num_contexts,
                    context_offset,
                    custom_orders_8x8,
                    raw_quant_map,
                    block_ctx_info,
                ),
            ) == Ok::<Seq<AcToken>, Error>(t@),
            Err(e) => spec_tokenize_region(
                spec_hf_region(
                    ac_x,
                    ac_y,
                    ac_b,
                    transform_map,
                    full_bw,
                    x0,
                    y0,
                    rw,
                    rh,
                    num_contexts,
                    context_offset,
                    custom_orders_8x8,
                    raw_quant_map,
                    block_ctx_info,
                ),
            ) == Err::<Seq<AcToken>, Error>(e),
        },
{
    let ghost reg = spec_hf_region(
        ac_x,
        ac_y,
        ac_b,
        transform_map,
        full_bw,
        x0,
        y0,
        rw,
        rh,
        num_contexts,
        context_offset,
        custom_orders_8x8,
        raw_quant_map,
        block_ctx_info,
    );
    let mut tokens: Vec<AcToken> = Vec::new();
    let n = rw * rh;
    let mut nz0: Vec<u32> = Vec::new();
    let mut nz1: Vec<u32> = Vec::new();
    let mut nz2: Vec<u32> = Vec::new();
    let mut i: usize = 0;
    while i < n
        invariant
            i <= n,
            nz0@ =~= Seq::new(i as nat, |t: int| 0u32),
            nz1@ =~= Seq::new(i as nat, |t: int| 0u32),
            nz2@ =~= Seq::new(i as nat, |t: int| 0u32),
        decreases n - i,
    {
        nz0.push(0);
        nz1.push(0);
        nz2.push(0);
        i = i + 1;
    }
    let natural = crate::coeff_order::natural_coeff_order_8x8();
    proof {
        lemma_zigzag_facts();
        assert((tokens@, seq![nz0@, nz1@, nz2@]) == spec_hf_start(reg));
    }
    let map_len = transform_map.len();
    let mut by: usize = 0;
    while by < rh
        invariant
            by <= rh,
            reg == spec_hf_region(
                ac_x,
                ac_y,
                ac_b,
                transform_map,
                full_bw,
                x0,
                y0,
                rw,
                rh,
                num_contexts,
                context_offset,
                custom_orders_8x8,
                raw_quant_map,
                block_ctx_info,
            ),
            n == rw * rh,
            map_len == transform_map@.len(),
            rw * rh <= usize::MAX,
            x0 + rw <= usize::MAX,
            y0 + rh <= usize::MAX,
            spec_region_in_ac((transform_map@.len() * 64) as int, full_bw as int, x0 as int, y0 as int, rw as int, rh as int),
            spec_region_in_ac(ac_x@.len() as int, full_bw as int, x0 as int, y0 as int, rw as int, rh as int),
            spec_region_in_ac(ac_y@.len() as int, full_bw as int, x0 as int, y0 as int, rw as int, rh as int),
            spec_region_in_ac(ac_b@.len() as int, full_bw as int, x0 as int, y0 as int, rw as int, rh as int),
            raw_quant_map matches Some(q) ==> spec_region_in_ac((q@.len() * 64) as int, full_bw as int, x0 as int, y0 as int, rw as int, rh as int),
            block_ctx_info matches Some(b) ==> 39 * b.qf_thresholds@.len() + 38 <= usize::MAX,
            custom_orders_8x8 matches Some(o) ==> forall|c: int, k: int| 0 <= c < 3 && 0 <= k < 64 ==> #[trigger] o[c]@[k] < 64,
            spec_region_no_min(reg),
            spec_contexts_fit(num_contexts as nat, context_offset as nat),
            natural@ == spec_zigzag_8x8(),
            forall|k: int| 0 <= k < 64 ==> #[trigger] spec_zigzag_8x8()[k] < 64,
            nz0.len() == n,
            nz1.len() == n,
            nz2.len() == n,
            forall|i: int| 0 <= i < n ==> #[trigger] nz0@[i] <= 64,
            forall|i: int| 0 <= i < n ==> #[trigger] nz1@[i] <= 64,
            forall|i: int| 0 <= i < n ==> #[trigger] nz2@[i] <= 64,
            spec_hf_rows(reg, by as int) == Ok::<(Seq<AcToken>, Seq<Seq<u32>>), Error>((tokens@, seq![nz0@, nz1@, nz2@])),
        decreases rh - by,
    {
        let ghost row_start = spec_hf_rows(reg, by as int);
        let mut bx: usize = 0;
        while bx < rw
            invariant
                by < rh,
                bx <= rw,
                reg == spec_hf_region(
                    ac_x,
                    ac_y,
                    ac_b,
                    transform_map,
                    full_bw,
                    x0,
                    y0,
                    rw,
                    rh,
                    num_contexts,
                    context_offset,
                    custom_orders_8x8,
                    raw_quant_map,
                    block_ctx_info,
                ),
                n == rw * rh,
                map_len == transform_map@.len(),
                rw * rh <= usize::MAX,
                x0 + rw <= usize::MAX,
                y0 + rh <= usize::MAX,
                spec_region_in_ac((transform_map@.len() * 64) as int, full_bw as int, x0 as int, y0 as int, rw as int, rh as int),
                spec_region_in_ac(ac_x@.len() as int, full_bw as int, x0 as int, y0 as int, rw as int, rh as int),
                spec_region_in_ac(ac_y@.len() as int, full_bw as int, x0 as int, y0 as int, rw as int, rh as int),
                spec_region_in_ac(ac_b@.len() as int, full_bw as int, x0 as int, y0 as int, rw as int, rh as int),
                raw_quant_map matches Some(q) ==> spec_region_in_ac((q@.len() * 64) as int, full_bw as int, x0 as int, y0 as int, rw as int, rh as int),
                block_ctx_info matches Some(b) ==> 39 * b.qf_thresholds@.len() + 38 <= usize::MAX,
                custom_orders_8x8 matches Some(o) ==> forall|c: int, k: int| 0 <= c < 3 && 0 <= k < 64 ==> #[trigger] o[c]@[k] < 64,
                spec_region_no_min(reg),
                spec_contexts_fit(num_contexts as nat, context_offset as nat),
                natural@ == spec_zigzag_8x8(),
                forall|k: int| 0 <= k < 64 ==> #[trigger] spec_zigzag_8x8()[k] < 64,
                nz0.len() == n,
                nz1.len() == n,
                nz2.len() == n,
                forall|i: int| 0 <= i < n ==> #[trigger] nz0@[i] <= 64,
                forall|i: int| 0 <= i < n ==> #[trigger] nz1@[i] <= 64,
                forall|i: int| 0 <= i < n ==> #[trigger] nz2@[i] <= 64,
                row_start == spec_hf_rows(reg, by as int),
                spec_hf_cols(row_start, reg, by as int, bx as int) == Ok::<(Seq<AcToken>, Seq<Seq<u32>>), Error>((tokens@, seq![nz0@, nz1@, nz2@])),
            decreases rw - bx,
        {
            let res = tokenize_cell(
                ac_x,
                ac_y,
                ac_b,
                transform_map,
                full_bw,
                x0,
                y0,
                rw,
                rh,
                bx,
                by,
                num_contexts,
                context_offset,
                custom_orders_8x8,
                raw_quant_map,
                block_ctx_info,
                &natural,
                &mut nz0,
                &mut nz1,
                &mut nz2,
                &mut tokens,
                Ghost(reg),
            );
            match res {
                Ok(()) => {},
                Err(e) => {
                    proof {
                        lemma_hf_cols_error_from(row_start, reg, by as int, bx as int + 1, rw as int, e);
                        lemma_hf_rows_error_from(reg, by as int + 1, rh as int, e);
                    }
                    return Err(e);
                },
            }
            bx = bx + 1;
        }
        by = by + 1;
    }
    Ok(tokens)
}

fn order_to_vec(order: &[usize; 64]) -> (r: Vec<usize>)
    ensures
        r@ == order@,
        r.len() == 64,
{
    let mut v: Vec<usize> = Vec::new();
    let mut k: usize = 0;
    while k < 64
        invariant
            k <= 64,
            order@.len() == 64,
            v@ =~= order@.subrange(0, k as int),
        decreases 64 - k,
    {
        v.push(order[k]);
        k = k + 1;
    }
    assert(v@ =~= order@);
    v
}

/// Tokenizes the block at (`bx`, `by`) of the region if it starts a
/// transform.
#[verifier::rlimit(60)]
fn tokenize_cell(
    ac_x: &[i32],
    ac_y: &[i32],
    ac_b: &[i32],
    transform_map: &[u8],
    full_bw: usize,
    x0: usize,
    y0: usize,
    rw: usize,
    rh: usize,
    bx: usize,
    by: usize,
    num_contexts: usize,
    context_offset: usize,
    custom_orders_8x8: Option<&[[usize; 64]; 3]>,
    raw_quant_map: Option<&[u8]>,
    block_ctx_info: Option<&CustomBlockCtx>,
    natural: &[usize; 64],
    nz0: &mut Vec<u32>,
    nz1: &mut Vec<u32>,
    nz2: &mut Vec<u32>,
    tokens: &mut Vec<AcToken>,
    Ghost(reg): Ghost<HfRegion>,
) -> (r: Result<(), Error>)
    requires
        reg == spec_hf_region(
            ac_x,
            ac_y,
            ac_b,
            transform_map,
            full_bw,
            x0,
            y0,
            rw,
            rh,
            num_contexts,
            context_offset,
            custom_orders_8x8,
            raw_quant_map,
            block_ctx_info,
        ),
        bx < rw,
        by < rh,
        rw * rh <= usize::MAX,
        x0 + rw <= usize::MAX,
        y0 + rh <= usize::MAX,
        spec_region_in_ac((transform_map@.len() * 64) as int, full_bw as int, x0 as int, y0 as int, rw as int, rh as int),
        spec_region_in_ac(ac_x@.len() as int, full_bw as int, x0 as int, y0 as int, rw as int, rh as int),
        spec_region_in_ac(ac_y@.len() as int, full_bw as int, x0 as int, y0 as int, rw as int, rh as int),
        spec_region_in_ac(ac_b@.len() as int, full_bw as int, x0 as int, y0 as int, rw as int, rh as int),
        raw_quant_map matches Some(q) ==> spec_region_in_ac((q@.len() * 64) as int, full_bw as int, x0 as int, y0 as int, rw as int, rh as int),
        block_ctx_info matches Some(b) ==> 39 * b.qf_thresholds@.len() + 38 <= usize::MAX,
        custom_orders_8x8 matches Some(o) ==> forall|c: int, k: int| 0 <= c < 3 && 0 <= k < 64 ==> #[trigger] o[c]@[k] < 64,
        spec_region_no_min(reg),
        spec_contexts_fit(num_contexts as nat, context_offset as nat),
        natural@ == spec_zigzag_8x8(),
        forall|k: int| 0 <= k < 64 ==> #[trigger] spec_zigzag_8x8()[k] < 64,
        old(nz0).len() == rw * rh,
        old(nz1).len() == rw * rh,
        old(nz2).len() == rw * rh,
        forall|i: int| 0 <= i < rw * rh ==> #[trigger] old(nz0)@[i] <= 64,
        forall|i: int| 0 <= i < rw * rh ==> #[trigger] old(nz1)@[i] <= 64,
        forall|i: int| 0 <= i < rw * rh ==> #[trigger] old(nz2)@[i] <= 64,
    ensures
        final(nz0).len() == rw * rh,
        final(nz1).len() == rw * rh,
        final(nz2).len() == rw * rh,
        forall|i: int| 0 <= i < rw * rh ==> #[trigger] final(nz0)@[i] <= 64,
        forall|i: int| 0 <= i < rw * rh ==> #[trigger] final(nz1)@[i] <= 64,
        forall|i: int| 0 <= i < rw * rh ==> #[trigger] final(nz2)@[i] <= 64,
        match r {
            Ok(_) => spec_cell_step(
                (old(tokens)@, seq![old(nz0)@, old(nz1)@, old(nz2)@]),
                reg,
                bx as int,
                by as int,
            ) == Ok::<(Seq<AcToken>, Seq<Seq<u32>>), Error>(
                (final(tokens)@, seq![final(nz0)@, final(nz1)@, final(nz2)@]),
            ),
            Err(e) => spec_cell_step(
                (old(tokens)@, seq![old(nz0)@, old(nz1)@, old(nz2)@]),
                reg,
                bx as int,
                by as int,
            ) == Err::<(Seq<AcToken>, Seq<Seq<u32>>), Error>(e),
        },
{
    proof {
        lemma_cell_in_region(full_bw as int, x0 as int, y0 as int, rw as int, rh as int, bx as int, by as int);
    }
    let map_len = transform_map.len();
    assert(spec_region_block(full_bw as int, x0 as int, y0 as int, bx as int, by as int) < map_len);
    let gidx = (y0 + by) * full_bw + (x0 + bx);
    let raw = transform_map[gidx];
    let (first, id) = split_transform_entry(raw);
    let ghost st = (old(tokens)@, seq![old(nz0)@, old(nz1)@, old(nz2)@]);
    if first {
        let tt = match HfTransformType::from_usize(id as usize) {
            Some(t) => t,
            None => {
                return Err(Error::InvalidVarDCTTransform(id as usize));
            },
        };
        let cx = covered_blocks_x(tt) as usize;
        let cy = covered_blocks_y(tt) as usize;
        if cx > rw - bx || cy > rh - by {
            return Err(Error::HFBlockOutOfBounds);
        }
        let shape_id = block_shape_id(tt) as usize;
        let shape_order: Vec<usize> = if id == 0 {
            Vec::new()
        } else {
            match token_shape_order(shape_id) {
                Some(o) => o,
                None => {
                    return Err(Error::InvalidVarDCTTransform(id as usize));
                },
            }
        };
        assert(tt == spec_cell_transform(reg, bx as int, by as int));
        tokenize_transform(
            ac_x,
            ac_y,
            ac_b,
            full_bw,
            x0,
            y0,
            rw,
            rh,
            bx,
            by,
            gidx,
            tt,
            cx,
            cy,
            shape_id,
            &shape_order,
            num_contexts,
            context_offset,
            custom_orders_8x8,
            raw_quant_map,
            block_ctx_info,
            natural,
            nz0,
            nz1,
            nz2,
            tokens,
            Ghost(reg),
        );
    }
    Ok(())
}

/// Tokenizes the three channels (Y, X, B) of the transform whose first
/// block is at (`bx`, `by`).
#[verifier::rlimit(40)]
fn tokenize_transform(
    ac_x: &[i32],
    ac_y: &[i32],
    ac_b: &[i32],
    full_bw: usize,
    x0: usize,
    y0: usize,
    rw: usize,
    rh: usize,
    bx: usize,
    by: usize,
    gidx: usize,
    tt: HfTransformType,
    cx: usize,
    cy: usize,
    shape_id: usize,
    shape_order: &Vec<usize>,
    num_contexts: usize,
    context_offset: usize,
    custom_orders_8x8: Option<&[[usize; 64]; 3]>,
    raw_quant_map: Option<&[u8]>,
    block_ctx_info: Option<&CustomBlockCtx>,
    natural: &[usize; 64],
    nz0: &mut Vec<u32>,
    nz1: &mut Vec<u32>,
    nz2: &mut Vec<u32>,
    tokens: &mut Vec<AcToken>,
    Ghost(reg): Ghost<HfRegion>,
)
    requires
        reg.ac == seq![ac_y@, ac_x@, ac_b@],
        reg.full_bw == full_bw,
        reg.x0 == x0,
        reg.y0 == y0,
        reg.rw == rw,
        reg.rh == rh,
        reg.num_contexts == num_contexts,
        reg.context_offset == context_offset,
        reg.orders == (match custom_orders_8x8 {
            Some(o) => Some(seq![o[0]@, o[1]@, o[2]@]),
            None => None,
        }),
        reg.quant == (match raw_quant_map {
            Some(q) => Some(q@),
            None => None,
        }),
        reg.block_ctx == (match block_ctx_info {
            Some(b) => Some((b.qf_thresholds@, b.context_map@)),
            None => None,
        }),
        bx < rw,
        by < rh,
        rw * rh <= usize::MAX,
        x0 + rw <= usize::MAX,
        y0 + rh <= usize::MAX,
        gidx == spec_region_block(full_bw as int, x0 as int, y0 as int, bx as int, by as int),
        raw_quant_map matches Some(q) ==> gidx < q@.len(),
        tt == spec_cell_transform(reg, bx as int, by as int),
        cx == spec_covered_x(tt),
        cy == spec_covered_y(tt),
        shape_id == spec_shape_id(tt),
        bx + cx <= rw,
        by + cy <= rh,
        tt != HfTransformType::DCT ==> {
            &&& shape_order@ == spec_cell_order(reg, 0, bx as int, by as int)
            &&& shape_order.len() == cx * cy * 64
            &&& forall|k: int| 0 <= k < shape_order.len() ==> #[trigger] shape_order@[k] < cx * cy * 64
        },
        spec_region_in_ac(ac_x@.len() as int, full_bw as int, x0 as int, y0 as int, rw as int, rh as int),
        spec_region_in_ac(ac_y@.len() as int, full_bw as int, x0 as int, y0 as int, rw as int, rh as int),
        spec_region_in_ac(ac_b@.len() as int, full_bw as int, x0 as int, y0 as int, rw as int, rh as int),
        block_ctx_info matches Some(b) ==> 39 * b.qf_thresholds@.len() + 38 <= usize::MAX,
        custom_orders_8x8 matches Some(o) ==> forall|c: int, k: int| 0 <= c < 3 && 0 <= k < 64 ==> #[trigger] o[c]@[k] < 64,
        spec_cell_no_min(reg, bx as int, by as int),
        spec_contexts_fit(num_contexts as nat, context_offset as nat),
        natural@ == spec_zigzag_8x8(),
        forall|k: int| 0 <= k < 64 ==> #[trigger] spec_zigzag_8x8()[k] < 64,
        old(nz0).len() == rw * rh,
        old(nz1).len() == rw * rh,
        old(nz2).len() == rw * rh,
        forall|i: int| 0 <= i < rw * rh ==> #[trigger] old(nz0)@[i] <= 64,
        forall|i: int| 0 <= i < rw * rh ==> #[trigger] old(nz1)@[i] <= 64,
        forall|i: int| 0 <= i < rw * rh ==> #[trigger] old(nz2)@[i] <= 64,
    ensures
        final(nz0).len() == rw * rh,
        final(nz1).len() == rw * rh,
        final(nz2).len() == rw * rh,
        forall|i: int| 0 <= i < rw * rh ==> #[trigger] final(nz0)@[i] <= 64,
        forall|i: int| 0 <= i < rw * rh ==> #[trigger] final(nz1)@[i] <= 64,
        forall|i: int| 0 <= i < rw * rh ==> #[trigger] final(nz2)@[i] <= 64,
        spec_channel_step(
            spec_channel_step(
                spec_channel_step(
                    (old(tokens)@, seq![old(nz0)@, old(nz1)@, old(nz2)@]),
                    reg,
                    0,
                    bx as int,
                    by as int,
                ),
                reg,
                1,
                bx as int,
                by as int,
            ),
            reg,
            2,
            bx as int,
            by as int,
        ) == (final(tokens)@, seq![final(nz0)@, final(nz1)@, final(nz2)@]),
{
    let ghost st = (old(tokens)@, seq![old(nz0)@, old(nz1)@, old(nz2)@]);
    let id: u8 = if tt == HfTransformType::DCT { 0 } else { 1 };
    proof {
        lemma_transform_blocks(tt);
        assert forall|k: int| 0 <= k < cx * cy * 64 implies {
            let si = #[trigger] spec_storage_index(full_bw as int, x0 + bx, y0 + by, cx as int, k);
            &&& 0 <= si < ac_x@.len()
            &&& 0 <= si < ac_y@.len()
            &&& 0 <= si < ac_b@.len()
            &&& y0 + by + k / (cx as int * 8) / 8 <= usize::MAX
        } by {
            lemma_storage_in_region(full_bw as int, x0 as int, y0 as int, rw as int, rh as int, bx as int, by as int, cx as int, cy as int, k);
        }
    }
    let (py, px, pb) = match custom_orders_8x8 {
        Some(o) => (&o[0], &o[1], &o[2]),
        None => (natural, natural, natural),
    };
    let (vy, vx, vb) = if id == 0 {
        (order_to_vec(py), order_to_vec(px), order_to_vec(pb))
    } else {
        (Vec::new(), Vec::new(), Vec::new())
    };
    let oy: &Vec<usize> = if id == 0 {
        &vy
    } else {
        shape_order
    };
    let ox: &Vec<usize> = if id == 0 {
        &vx
    } else {
        shape_order
    };
    let ob: &Vec<usize> = if id == 0 {
        &vb
    } else {
        shape_order
    };
    tokenize_channel(ac_y, 0, 1, nz1, tokens, full_bw, x0, y0, rw, bx, by, gidx, tt, cx, cy, shape_id, oy, num_contexts, context_offset, raw_quant_map, block_ctx_info, Ghost(reg));
    tokenize_channel(ac_x, 1, 0, nz0, tokens, full_bw, x0, y0, rw, bx, by, gidx, tt, cx, cy, shape_id, ox, num_contexts, context_offset, raw_quant_map, block_ctx_info, Ghost(reg));
    tokenize_channel(ac_b, 2, 2, nz2, tokens, full_bw, x0, y0, rw, bx, by, gidx, tt, cx, cy, shape_id, ob, num_contexts, context_offset, raw_quant_map, block_ctx_info, Ghost(reg));
    proof {
        let s1 = spec_channel_step(st, reg, 0, bx as int, by as int);
        let s2 = spec_channel_step(s1, reg, 1, bx as int, by as int);
        let s3 = spec_channel_step(s2, reg, 2, bx as int, by as int);
        assert(s3 == (tokens@, seq![nz0@, nz1@, nz2@]));
    }
}

proof fn lemma_cell_in_region(full_bw: int, x0: int, y0: int, rw: int, rh: int, bx: int, by: int)
    requires
        full_bw >= 0,
        x0 >= 0,
        y0 >= 0,
        0 <= bx < rw,
        0 <= by < rh,
    ensures
        0 <= spec_region_block(full_bw, x0, y0, bx, by),
        spec_region_block(full_bw, x0, y0, bx, by) * 64 + 64 <= ((y0 + rh - 1) * full_bw + x0 + rw) * 64,
        (y0 + by) * full_bw <= spec_region_block(full_bw, x0, y0, bx, by),
{
    assert((y0 + by) * full_bw <= (y0 + rh - 1) * full_bw) by (nonlinear_arith)
        requires
            by <= rh - 1,
            full_bw >= 0,
            y0 >= 0,
    ;
    assert(0 <= (y0 + by) * full_bw) by (nonlinear_arith)
        requires
            by >= 0,
            y0 >= 0,
            full_bw >= 0,
    ;
}

/// Number of the first `n` entries of `s` that equal `v`.
pub open spec fn spec_count_eq(s: Seq<u8>, v: int, n: int) -> nat
    decreases n,
{
    if n <= 0 {
        0
    } else {
        spec_count_eq(s, v, n - 1) + if s[n - 1] == v {
            1nat
        } else {
            0nat
        }
    }
}

/// Number of the first `n` entries of `s` that are at most `v`.
pub open spec fn spec_count_le(s: Seq<u8>, v: int, n: int) -> nat
    decreases n,
{
    if n <= 0 {
        0
    } else {
        spec_count_le(s, v, n - 1) + if s[n - 1] <= v {
            1nat
        } else {
            0nat
        }
    }
}

/// The smallest quant value `j >= from` (below 256) with more than `half`
/// entries of `s` at most `j`; 0 if there is none.
pub open spec fn spec_first_above(s: Seq<u8>, half: int, from: int) -> int
    decreases 256 - from,
{
    if from >= 256 {
        0
    } else if spec_count_le(s, from, s.len() as int) > half {
        from
    } else {
        spec_first_above(s, half, from + 1)
    }
}

/// All entries of `s` are equal.
pub open spec fn spec_uniform(s: Seq<u8>) -> bool {
    forall|i: int, j: int| 0 <= i < s.len() && 0 <= j < s.len() ==> s[i] == s[j]
}

/// Entry `i` of the custom block-context map with one quant-field
/// threshold: the default map for every (channel, shape, quant segment),
/// except DCT8x8 of the Y channel above the threshold, which gets context 15.
pub open spec fn spec_custom_ctx_entry(i: int) -> u8 {
    let ch = i / 26;
    let order = (i % 26) / 2;
    let seg = i % 2;
    if ch == 0 && order == 0 && seg == 1 {
        15
    } else {
        spec_default_ctx_map()[ch * 13 + order]
    }
}

proof fn lemma_count_le_step(s: Seq<u8>, v: int, n: int)
    ensures
        spec_count_le(s, v, n) == spec_count_le(s, v - 1, n) + spec_count_eq(s, v, n),
    decreases n,
{
    if n > 0 {
        lemma_count_le_step(s, v, n - 1);
    }
}

proof fn lemma_count_le_none(s: Seq<u8>, n: int)
    ensures
        spec_count_le(s, -1, n) == 0,
    decreases n,
{
    if n > 0 {
        lemma_count_le_none(s, n - 1);
    }
}

proof fn lemma_count_eq_bound(s: Seq<u8>, v: int, n: int)
    requires
        n >= 0,
    ensures
        spec_count_eq(s, v, n) <= n,
    decreases n,
{
    if n > 0 {
        lemma_count_eq_bound(s, v, n - 1);
    }
}

proof fn lemma_count_le_bound(s: Seq<u8>, v: int, n: int)
    requires
        n >= 0,
    ensures
        spec_count_le(s, v, n) <= n,
    decreases n,
{
    if n > 0 {
        lemma_count_le_bound(s, v, n - 1);
    }
}

/// A custom block-context map for large images whose quant field varies:
/// `None` when the grid has fewer than 8192 blocks or every quant value is
/// the same; else one threshold at the median quant value, the map of
/// `spec_custom_ctx_entry` and 16 block contexts.
pub fn compute_block_context_map(
    raw_quant_map: &[u8],
    _transform_map: &[u8],
    bw: usize,
    bh: usize,
) -> (r: Option<CustomBlockCtx>)
    requires
        bw * bh <= usize::MAX,
    ensures
        match r {
            None => bw * bh < 8192 || spec_uniform(raw_quant_map@),
            Some(ctx) => {
                &&& bw * bh >= 8192
                &&& !spec_uniform(raw_quant_map@)
                &&& ctx.qf_thresholds@ == seq![
                    spec_first_above(raw_quant_map@, (bw * bh / 2) as int, 0) as u32,
                ]
                &&& ctx.context_map@ == Seq::new(78, |i: int| spec_custom_ctx_entry(i))
                &&& ctx.num_contexts == 16
            },
        },
{
    let tot = bw * bh;
    if tot < 8192 {
        return None;
    }
    let ghost s = raw_quant_map@;
    let len = raw_quant_map.len();
    let mut qf_counts: Vec<usize> = Vec::new();
    let mut j: usize = 0;
    while j < 256
        invariant
            j <= 256,
            qf_counts.len() == j,
            forall|v: int| 0 <= v < j ==> #[trigger] qf_counts@[v] == 0,
        decreases 256 - j,
    {
        qf_counts.push(0);
        j = j + 1;
    }
    let mut i: usize = 0;
    while i < len
        invariant
            i <= len,
            len == s.len(),
            raw_quant_map@ == s,
            qf_counts.len() == 256,
            forall|v: int| 0 <= v < 256 ==> #[trigger] qf_counts@[v] == spec_count_eq(s, v, i as int),
        decreases len - i,
    {
        let rq = raw_quant_map[i] as usize;
        proof {
            lemma_count_eq_bound(s, rq as int, i as int);
        }
        let c = qf_counts[rq];
        qf_counts.set(rq, c + 1);
        i = i + 1;
    }
    let half = tot / 2;
    let mut cumsum: usize = 0;
    let mut median_qf: u32 = 0;
    let mut j: usize = 0;
    proof {
        lemma_count_le_none(s, len as int);
    }
    while j < 256
        invariant_except_break
            cumsum == spec_count_le(s, j - 1, len as int),
            cumsum <= len,
            median_qf == 0,
            spec_first_above(s, half as int, 0) == spec_first_above(s, half as int, j as int),
        invariant
            j <= 256,
            len == s.len(),
            qf_counts.len() == 256,
            forall|v: int| 0 <= v < 256 ==> #[trigger] qf_counts@[v] == spec_count_eq(s, v, len as int),
        ensures
            median_qf == spec_first_above(s, half as int, 0),
        decreases 256 - j,
    {
        proof {
            lemma_count_le_step(s, j as int, len as int);
            lemma_count_le_bound(s, j as int, len as int);
        }
        cumsum = cumsum + qf_counts[j];
        if cumsum > half {
            median_qf = j as u32;
            break;
        }
        j = j + 1;
    }
    let mut uniform = true;
    if len > 0 {
        let first = raw_quant_map[0];
        let mut i: usize = 1;
        while i < len
            invariant
                1 <= i <= len,
                len == s.len(),
                raw_quant_map@ == s,
                first == s[0],
                uniform <==> forall|t: int| 0 <= t < i ==> #[trigger] s[t] == first,
            decreases len - i,
        {
            if raw_quant_map[i] != first {
                uniform = false;
            }
            i = i + 1;
        }
        proof {
            if !uniform {
                let t = choose|t: int| 0 <= t < len && #[trigger] s[t] != first;
                assert(s[t] != s[0]);
            } else {
                assert forall|a: int, b: int| 0 <= a < s.len() && 0 <= b < s.len() implies s[a] == s[b] by {
                    assert(s[a] == first);
                    assert(s[b] == first);
                }
            }
        }
    }
    if uniform {
        return None;
    }
    let qf_thresholds: Vec<u32> = vec![median_qf];
    let mut context_map: Vec<u8> = Vec::new();
    let mut max_ctx: u8 = 0;
    let mut i: usize = 0;
    while i < 78
        invariant
            i <= 78,
            context_map@ =~= Seq::new(i as nat, |t: int| spec_custom_ctx_entry(t)),
            max_ctx <= 15,
            i > 1 ==> max_ctx == 15,
        decreases 78 - i,
    {
        let ch = i / 26;
        let order = (i % 26) / 2;
        let seg = i % 2;
        let ctx: u8 = if ch == 0 && order == 0 && seg == 1 {
            15
        } else {
            default_ctx_map_entry(ch * 13 + order)
        };
        assert(spec_default_ctx_map()[ch * 13 + order] <= 14);
        context_map.push(ctx);
        if ctx > max_ctx {
            max_ctx = ctx;
        }
        i = i + 1;
    }
    let num_contexts = max_ctx as usize + 1;
    if num_contexts > 16 {
        return None;
    }
    Some(CustomBlockCtx { qf_thresholds, context_map, num_contexts })
}

proof fn lemma_scan_tokens_values(
    vals: Seq<i32>,
    k: int,
    end: int,
    nz_left: nat,
    prev: nat,
    histo_offset: nat,
    log: nat,
)
    requires
        0 <= k <= end <= vals.len(),
        nz_left == spec_count_nonzero(vals, k, end),
    ensures
        k + spec_scan_tokens(vals, k, end, nz_left, prev, histo_offset, log).len() <= end,
        forall|j: int|
            0 <= j < spec_scan_tokens(vals, k, end, nz_left, prev, histo_offset, log).len() ==> #[trigger] spec_scan_tokens(
                vals,
                k,
                end,
                nz_left,
                prev,
                histo_offset,
                log,
            )[j].value == spec_pack_signed(vals[k + j] as int),
        forall|p: int|
            k + spec_scan_tokens(vals, k, end, nz_left, prev, histo_offset, log).len() <= p < end
                ==> #[trigger] vals[p] == 0,
    decreases end - k,
{
    if k < end {
        lemma_count_nonzero_front(vals, k, end);
        if nz_left == 0 {
            assert forall|p: int| k <= p < end implies #[trigger] vals[p] == 0 by {
                lemma_zero_count_means_zero(vals, k, end, p);
            }
        } else {
            let c = vals[k];
            let nz2: nat = if c != 0 {
                (nz_left - 1) as nat
            } else {
                nz_left
            };
            let prev2: nat = if c != 0 {
                1
            } else {
                0
            };
            lemma_scan_tokens_values(vals, k + 1, end, nz2, prev2, histo_offset, log);
            let rest = spec_scan_tokens(vals, k + 1, end, nz2, prev2, histo_offset, log);
            let all = spec_scan_tokens(vals, k, end, nz_left, prev, histo_offset, log);
            assert(all.len() == rest.len() + 1);
            assert forall|j: int| 0 <= j < all.len() implies #[trigger] all[j].value == spec_pack_signed(
                vals[k + j] as int,
            ) by {
                if j > 0 {
                    assert(all[j] == rest[j - 1]);
                }
                lemma_unpack_pack(vals[k + j] as int);
                assert(spec_pack_signed(vals[k + j] as int) <= u32::MAX) by {
                    assert(vals[k + j] >= i32::MIN);
                }
            }
        }
    }
}

proof fn lemma_zero_count_means_zero(vals: Seq<i32>, from: int, to: int, p: int)
    requires
        from <= p < to,
        spec_count_nonzero(vals, from, to) == 0,
    ensures
        vals[p] == 0,
    decreases to - from,
{
    if to - 1 > p {
        lemma_zero_count_means_zero(vals, from, to - 1, p);
    }
}

/// The tokens of a transform give its coefficients back: the first token
/// holds the number of non-zeros, the next ones, unpacked, are the
/// coefficients in scan order from `start`, and every coefficient after the
/// last token is zero.
pub proof fn lemma_block_tokens_decode(
    vals: Seq<i32>,
    start: int,
    end: int,
    log: nat,
    predicted: nat,
    block_context: nat,
    num_contexts: nat,
    context_offset: nat,
)
    requires
        0 <= start <= end <= vals.len(),
        end <= u32::MAX,
    ensures
        ({
            let t = spec_block_tokens(vals, start, end, log, predicted, block_context, num_contexts, context_offset);
            &&& t.len() >= 1
            &&& t[0].value == spec_count_nonzero(vals, start, end)
            &&& start + t.len() - 1 <= end
            &&& forall|j: int| 1 <= j < t.len() ==> spec_unpack_signed(#[trigger] t[j].value as int) == vals[start + j - 1]
            &&& forall|p: int| start + t.len() - 1 <= p < end ==> #[trigger] vals[p] == 0
        }),
{
    let nonzeros = spec_count_nonzero(vals, start, end);
    let prev: nat = if nonzeros > end / 16 {
        0
    } else {
        1
    };
    let hoff = spec_zero_density_offset(block_context, num_contexts) + context_offset;
    lemma_count_nonzero_bound(vals, start, end);
    lemma_scan_tokens_values(vals, start, end, nonzeros, prev, hoff, log);
    let scan = spec_scan_tokens(vals, start, end, nonzeros, prev, hoff, log);
    let t = spec_block_tokens(vals, start, end, log, predicted, block_context, num_contexts, context_offset);
    assert(t.len() == scan.len() + 1);
    assert forall|j: int| 1 <= j < t.len() implies spec_unpack_signed(#[trigger] t[j].value as int) == vals[start + j - 1] by {
        assert(t[j] == scan[j - 1]);
        lemma_unpack_pack(vals[start + j - 1] as int);
    }
}

proof fn lemma_scan_tokens_context_form(
    vals: Seq<i32>,
    k: int,
    end: int,
    nz_left: nat,
    prev: nat,
    histo_offset: nat,
    log: nat,
)
    requires
        0 <= k <= end <= vals.len(),
        nz_left == spec_count_nonzero(vals, k, end),
    ensures
        forall|j: int|
            0 <= j < spec_scan_tokens(vals, k, end, nz_left, prev, histo_offset, log).len()
                ==> #[trigger] spec_scan_tokens(vals, k, end, nz_left, prev, histo_offset, log)[j].context
                == (histo_offset + spec_zero_density_context(
                spec_count_nonzero(vals, k + j, end),
                (k + j) as nat,
                log,
                if j == 0 {
                    prev
                } else if vals[k + j - 1] != 0 {
                    1nat
                } else {
                    0nat
                },
            )) as usize,
    decreases end - k,
{
    if k < end && nz_left != 0 {
        lemma_count_nonzero_front(vals, k, end);
        let c = vals[k];
        let nz2: nat = if c != 0 {
            (nz_left - 1) as nat
        } else {
            nz_left
        };
        let prev2: nat = if c != 0 {
            1
        } else {
            0
        };
        lemma_scan_tokens_context_form(vals, k + 1, end, nz2, prev2, histo_offset, log);
        let rest = spec_scan_tokens(vals, k + 1, end, nz2, prev2, histo_offset, log);
        let all = spec_scan_tokens(vals, k, end, nz_left, prev, histo_offset, log);
        assert(all.len() == rest.len() + 1);
        assert forall|j: int| 0 <= j < all.len() implies #[trigger] all[j].context == (histo_offset
            + spec_zero_density_context(
            spec_count_nonzero(vals, k + j, end),
            (k + j) as nat,
            log,
            if j == 0 {
                prev
            } else if vals[k + j - 1] != 0 {
                1nat
            } else {
                0nat
            },
        )) as usize by {
            if j > 0 {
                assert(all[j] == rest[j - 1]);
                assert(k + 1 + (j - 1) == k + j);
            }
        }
    }
}

/// The contexts of a transform's tokens, as the decoder derives them. The
/// first token, the non-zero count, is coded in the non-zero-count context
/// of the predicted count. The token of the coefficient at scan position
/// `k` is coded in the zero-density context of the non-zeros at positions
/// `k..end`, of `k`, and of the flag of the previous coefficient: for the
/// first coded position that flag is 0 exactly when the transform has more
/// non-zeros than a sixteenth of its coefficients, and for every later
/// position it is 1 exactly when the coefficient at the previous scan
/// position is non-zero. The flag is the lowest bit of the context.
#[verifier::spinoff_prover]
#[verifier::rlimit(40)]
pub proof fn lemma_block_tokens_contexts_exact(
    vals: Seq<i32>,
    start: int,
    log: nat,
    predicted: nat,
    block_context: nat,
    num_contexts: nat,
    context_offset: nat,
)
    requires
        0 <= start <= vals.len(),
    ensures
        ({
            let end = vals.len() as int;
            let t = spec_block_tokens(vals, start, end, log, predicted, block_context, num_contexts, context_offset);
            let nonzeros = spec_count_nonzero(vals, start, end);
            let histo = spec_zero_density_offset(block_context, num_contexts) + context_offset;
            &&& t.len() >= 1
            &&& t[0].context == (spec_nonzero_context(predicted, block_context, num_contexts)
                + context_offset) as usize
            &&& t[0].value == nonzeros as u32
            &&& forall|j: int|
                1 <= j < t.len() ==> #[trigger] t[j].context == (histo + spec_zero_density_context(
                    spec_count_nonzero(vals, start + j - 1, end),
                    (start + j - 1) as nat,
                    log,
                    if j == 1 {
                        if nonzeros > vals.len() / 16 {
                            0nat
                        } else {
                            1nat
                        }
                    } else if vals[start + j - 2] != 0 {
                        1nat
                    } else {
                        0nat
                    },
                )) as usize
        }),
        forall|n: nat, k: nat, p: nat|
            p <= 1 ==> #[trigger] spec_zero_density_context(n, k, log, p) % 2 == p,
{
    let end = vals.len() as int;
    let nonzeros = spec_count_nonzero(vals, start, end);
    let prev: nat = if nonzeros > end / 16 {
        0
    } else {
        1
    };
    let hoff = spec_zero_density_offset(block_context, num_contexts) + context_offset;
    lemma_scan_tokens_context_form(vals, start, end, nonzeros, prev, hoff, log);
    let scan = spec_scan_tokens(vals, start, end, nonzeros, prev, hoff, log);
    let t = spec_block_tokens(vals, start, end, log, predicted, block_context, num_contexts, context_offset);
    assert(t == seq![
        AcToken {
            context: (spec_nonzero_context(predicted, block_context, num_contexts) + context_offset) as usize,
            value: nonzeros as u32,
        },
    ] + scan);
    assert forall|j: int| 1 <= j < t.len() implies #[trigger] t[j].context == (hoff
        + spec_zero_density_context(
        spec_count_nonzero(vals, start + j - 1, end),
        (start + j - 1) as nat,
        log,
        if j == 1 {
            if nonzeros > vals.len() / 16 {
                0nat
            } else {
                1nat
            }
        } else if vals[start + j - 2] != 0 {
            1nat
        } else {
            0nat
        },
    )) as usize by {
        assert(t[j] == scan[j - 1]);
        assert(start + (j - 1) == start + j - 1);
    }
}

/// In a region, a channel of the transform at (`bx`, `by`), covering `nb`
/// blocks and so `64 * nb` coefficients, codes its first coefficient token
/// (scan position `nb`) with previous-coefficient flag 0 exactly when it
/// has more than `4 * nb` non-zeros, a sixteenth of its coefficients.
#[verifier::spinoff_prover]
#[verifier::rlimit(40)]
pub proof fn lemma_channel_first_token_flag(r: HfRegion, ci: int, bx: int, by: int, m: Seq<u32>)
    ensures
        ({
            let t = spec_cell_transform(r, bx, by);
            let nb = spec_covered_x(t) * spec_covered_y(t);
            let gidx = spec_region_block(r.full_bw, r.x0, r.y0, bx, by);
            let bc = spec_region_block_ctx(r, spec_channel_index(ci), spec_shape_id(t), gidx);
            let vals = spec_cell_vals(r, ci, bx, by);
            let nonzeros = spec_count_nonzero(vals, nb as int, (nb * 64) as int);
            let toks = spec_channel_effect(r, ci, bx, by, m).0;
            toks.len() >= 2 ==> toks[1].context == (spec_zero_density_offset(bc, r.num_contexts)
                + r.context_offset + spec_zero_density_context(
                nonzeros,
                nb,
                spec_log_of_blocks(nb),
                if nonzeros > 4 * nb {
                    0nat
                } else {
                    1nat
                },
            )) as usize
        }),
{
    let t = spec_cell_transform(r, bx, by);
    let nb = spec_covered_x(t) * spec_covered_y(t);
    let gidx = spec_region_block(r.full_bw, r.x0, r.y0, bx, by);
    let bc = spec_region_block_ctx(r, spec_channel_index(ci), spec_shape_id(t), gidx);
    let vals = spec_cell_vals(r, ci, bx, by);
    let predicted = spec_predict_num_nonzeros(m, r.rw, bx, by);
    assert(vals.len() == nb * 64);
    assert((nb * 64) / 16 == nb * 4) by (nonlinear_arith);
    lemma_block_tokens_contexts_exact(
        vals,
        nb as int,
        spec_log_of_blocks(nb),
        predicted,
        bc,
        r.num_contexts,
        r.context_offset,
    );
}

proof fn lemma_hf_cols_ok(s: (Seq<AcToken>, Seq<Seq<u32>>), r: HfRegion, by: int, n: int)
    requires
        r.x0 == 0,
        r.y0 == 0,
        r.full_bw == r.rw,
        spec_well_formed_map(r.map, r.rw, r.rh),
        0 <= by < r.rh,
        n <= r.rw,
    ensures
        spec_hf_cols(Ok(s), r, by, n) is Ok,
    decreases n,
{
    if n > 0 {
        lemma_hf_cols_ok(s, r, by, n - 1);
        let raw = r.map[spec_region_block(r.rw, 0, 0, n - 1, by)];
        assert(spec_region_block(r.full_bw, r.x0, r.y0, n - 1, by) == spec_region_block(r.rw, 0, 0, n - 1, by));
        if spec_is_first_block(raw) {
            assert(spec_transform_fits(spec_entry_id(raw), r.rw, r.rh, n - 1, by));
        }
    }
}

proof fn lemma_hf_rows_ok(r: HfRegion, m: int)
    requires
        r.x0 == 0,
        r.y0 == 0,
        r.full_bw == r.rw,
        spec_well_formed_map(r.map, r.rw, r.rh),
        m <= r.rh,
    ensures
        spec_hf_rows(r, m) is Ok,
    decreases m,
{
    if m > 0 {
        lemma_hf_rows_ok(r, m - 1);
        match spec_hf_rows(r, m - 1) {
            Ok(s) => lemma_hf_cols_ok(s, r, m - 1, r.rw),
            Err(_) => {},
        }
    }
}

/// Tokenizing a whole grid never fails on a well-formed transform map.
pub proof fn lemma_tokenize_accepts_well_formed(r: HfRegion)
    requires
        r.x0 == 0,
        r.y0 == 0,
        r.full_bw == r.rw,
        spec_well_formed_map(r.map, r.rw, r.rh),
    ensures
        spec_tokenize_region(r) is Ok,
{
    lemma_hf_rows_ok(r, r.rh);
}


/// Every token context in `toks` is below `bound`.
pub open spec fn spec_contexts_below(toks: Seq<AcToken>, bound: nat) -> bool {
    forall|i: int| 0 <= i < toks.len() ==> (#[trigger] toks[i]).context < bound
}

proof fn lemma_contexts_below_concat(a: Seq<AcToken>, b: Seq<AcToken>, bound: nat)
    requires
        spec_contexts_below(a, bound),
        spec_contexts_below(b, bound),
    ensures
        spec_contexts_below(a + b, bound),
{
    assert forall|i: int| 0 <= i < (a + b).len() implies (#[trigger] (a + b)[i]).context < bound by {
        if i < a.len() {
            assert((a + b)[i] == a[i]);
        } else {
            assert((a + b)[i] == b[i - a.len()]);
        }
    }
}

proof fn lemma_zero_density_context_small(nonzeros_left: nat, k: nat, log: nat, prev: nat)
    requires
        prev <= 1,
        nonzeros_left + k <= 64 * spec_blocks_of_log(log),
    ensures
        spec_zero_density_context(nonzeros_left, k, log, prev) <= 457,
{
    let nb = spec_blocks_of_log(log);
    assert(nb >= 1);
    let q = (nonzeros_left + nb - 1) as nat / nb;
    let j = k / nb;
    let a = spec_num_nonzero_ctx(q);
    let f = spec_freq_ctx(j);
    assert(a <= 206);
    assert(f <= 30) by {
        if 16 <= j < 32 {
            assert((j - 16) / 2 <= 7) by (nonlinear_arith)
                requires
                    16 <= j < 32,
            ;
        } else if 32 <= j < 64 {
            assert((j - 32) / 4 <= 7) by (nonlinear_arith)
                requires
                    32 <= j < 64,
            ;
        }
    }
    if q > 32 {
        let n1: int = nonzeros_left + nb - 1;
        let qi: int = n1 / (nb as int);
        let ji: int = (k as int) / (nb as int);
        assert(q == qi);
        assert(j == ji);
        vstd::arithmetic::div_mod::lemma_fundamental_div_mod(n1, nb as int);
        vstd::arithmetic::div_mod::lemma_fundamental_div_mod(k as int, nb as int);
        assert(ji < 32) by (nonlinear_arith)
            requires
                n1 == nb * qi + n1 % (nb as int),
                0 <= n1 % (nb as int) < nb,
                k == nb * ji + (k as int) % (nb as int),
                0 <= (k as int) % (nb as int) < nb,
                qi >= 33,
                nb >= 1,
                n1 == nonzeros_left + nb - 1,
                nonzeros_left + k <= 64 * nb,
        ;
        assert(f <= 22) by {
            if 16 <= j < 32 {
                assert((j - 16) / 2 <= 7) by (nonlinear_arith)
                    requires
                        16 <= j < 32,
                ;
            }
        }
    }
}

proof fn lemma_scan_tokens_contexts(
    vals: Seq<i32>,
    k: int,
    end: int,
    nz_left: nat,
    prev: nat,
    histo_offset: nat,
    log: nat,
)
    requires
        prev <= 1,
        0 <= k,
        nz_left <= spec_count_nonzero(vals, k, end),
        end == 64 * spec_blocks_of_log(log),
        histo_offset + 458 <= usize::MAX,
    ensures
        spec_contexts_below(spec_scan_tokens(vals, k, end, nz_left, prev, histo_offset, log), histo_offset + 458),
    decreases end - k,
{
    if !(k >= end || nz_left == 0) {
        let c = vals[k];
        let next_left: nat = if c != 0 {
            (nz_left - 1) as nat
        } else {
            nz_left
        };
        let next_prev: nat = if c != 0 {
            1
        } else {
            0
        };
        lemma_count_nonzero_front(vals, k, end);
        lemma_count_nonzero_bound(vals, k, end);
        lemma_scan_tokens_contexts(vals, k + 1, end, next_left, next_prev, histo_offset, log);
        lemma_zero_density_context_small(nz_left, k as nat, log, prev);
        let head = seq![
            AcToken {
                context: (histo_offset + spec_zero_density_context(nz_left, k as nat, log, prev)) as usize,
                value: spec_pack_signed(c as int) as u32,
            },
        ];
        assert(spec_contexts_below(head, histo_offset + 458));
        lemma_contexts_below_concat(
            head,
            spec_scan_tokens(vals, k + 1, end, next_left, next_prev, histo_offset, log),
            histo_offset + 458,
        );
    }
}

proof fn lemma_block_tokens_contexts(
    vals: Seq<i32>,
    start: int,
    end: int,
    log: nat,
    predicted: nat,
    block_context: nat,
    num_contexts: nat,
    context_offset: nat,
)
    requires
        start >= 0,
        end == 64 * spec_blocks_of_log(log),
        block_context < num_contexts,
        context_offset + num_contexts * 495 <= usize::MAX,
    ensures
        spec_contexts_below(
            spec_block_tokens(vals, start, end, log, predicted, block_context, num_contexts, context_offset),
            context_offset + num_contexts * 495,
        ),
{
    let bound = context_offset + num_contexts * 495;
    let nonzeros = spec_count_nonzero(vals, start, end);
    let prev: nat = if nonzeros > end / 16 {
        0
    } else {
        1
    };
    let histo = spec_zero_density_offset(block_context, num_contexts) + context_offset;
    assert(histo + 458 <= bound) by (nonlinear_arith)
        requires
            histo == num_contexts * 37 + 458 * block_context + context_offset,
            block_context + 1 <= num_contexts,
            bound == context_offset + num_contexts * 495,
    ;
    lemma_scan_tokens_contexts(vals, start, end, nonzeros, prev, histo, log);
    let b = spec_nonzero_bucket(predicted);
    assert(b * num_contexts + block_context + context_offset < bound) by (nonlinear_arith)
        requires
            b <= 36,
            block_context < num_contexts,
            bound == context_offset + num_contexts * 495,
    ;
    let head = seq![
        AcToken {
            context: (spec_nonzero_context(predicted, block_context, num_contexts) + context_offset) as usize,
            value: nonzeros as u32,
        },
    ];
    assert(spec_contexts_below(head, bound));
    lemma_contexts_below_concat(
        head,
        spec_scan_tokens(vals, start, end, nonzeros, prev, histo, log),
        bound,
    );
}

proof fn lemma_default_block_context_small(channel: nat, shape_id: nat)
    ensures
        spec_default_block_context(channel, shape_id) <= 14,
{
    let m = spec_default_ctx_map();
    assert forall|i: int| 0 <= i < 39 implies m[i] <= 14 by {
        assert(m.len() == 39);
    }
    let ch_remap: nat = if channel < 2 {
        if channel == 0 {
            1
        } else {
            0
        }
    } else {
        2
    };
    let shape: nat = if shape_id < 12 {
        shape_id
    } else {
        12
    };
    assert(ch_remap * 13 + shape < 39);
}

/// A region without a block-context map, with at least 15 block contexts.
pub open spec fn spec_default_ctx_region(r: HfRegion) -> bool {
    &&& r.block_ctx is None
    &&& r.num_contexts >= 15
    &&& r.context_offset + r.num_contexts * 495 <= usize::MAX
}

proof fn lemma_channel_step_contexts(st: (Seq<AcToken>, Seq<Seq<u32>>), r: HfRegion, ci: int, bx: int, by: int)
    requires
        spec_default_ctx_region(r),
        spec_contexts_below(st.0, r.context_offset + r.num_contexts * 495),
    ensures
        spec_contexts_below(spec_channel_step(st, r, ci, bx, by).0, r.context_offset + r.num_contexts * 495),
{
    let bound = r.context_offset + r.num_contexts * 495;
    let t = spec_cell_transform(r, bx, by);
    let nb = spec_covered_x(t) * spec_covered_y(t);
    let gidx = spec_region_block(r.full_bw, r.x0, r.y0, bx, by);
    let c = spec_channel_index(ci) as int;
    let bc = spec_region_block_ctx(r, spec_channel_index(ci), spec_shape_id(t), gidx);
    lemma_default_block_context_small(spec_channel_index(ci), spec_shape_id(t));
    lemma_transform_blocks(t);
    assert(spec_blocks_of_log(spec_log_of_blocks(nb)) == nb);
    let e = spec_channel_effect(r, ci, bx, by, st.1[c]);
    lemma_block_tokens_contexts(
        spec_cell_vals(r, ci, bx, by),
        nb as int,
        (nb * 64) as int,
        spec_log_of_blocks(nb),
        spec_predict_num_nonzeros(st.1[c], r.rw, bx, by),
        bc,
        r.num_contexts,
        r.context_offset,
    );
    lemma_contexts_below_concat(st.0, e.0, bound);
}

proof fn lemma_cell_step_contexts(st: (Seq<AcToken>, Seq<Seq<u32>>), r: HfRegion, bx: int, by: int)
    requires
        spec_default_ctx_region(r),
        spec_contexts_below(st.0, r.context_offset + r.num_contexts * 495),
    ensures
        spec_cell_step(st, r, bx, by) matches Ok(s) ==> spec_contexts_below(
            s.0,
            r.context_offset + r.num_contexts * 495,
        ),
{
    let s0 = spec_channel_step(st, r, 0, bx, by);
    lemma_channel_step_contexts(st, r, 0, bx, by);
    let s1 = spec_channel_step(s0, r, 1, bx, by);
    lemma_channel_step_contexts(s0, r, 1, bx, by);
    lemma_channel_step_contexts(s1, r, 2, bx, by);
}

proof fn lemma_hf_cols_contexts(
    res: Result<(Seq<AcToken>, Seq<Seq<u32>>), Error>,
    r: HfRegion,
    by: int,
    n: int,
)
    requires
        spec_default_ctx_region(r),
        res matches Ok(s) ==> spec_contexts_below(s.0, r.context_offset + r.num_contexts * 495),
    ensures
        spec_hf_cols(res, r, by, n) matches Ok(s) ==> spec_contexts_below(
            s.0,
            r.context_offset + r.num_contexts * 495,
        ),
    decreases n,
{
    if n > 0 {
        lemma_hf_cols_contexts(res, r, by, n - 1);
        match spec_hf_cols(res, r, by, n - 1) {
            Ok(s) => {
                lemma_cell_step_contexts(s, r, n - 1, by);
            },
            Err(_) => {},
        }
    }
}

proof fn lemma_hf_rows_contexts(r: HfRegion, n: int)
    requires
        spec_default_ctx_region(r),
    ensures
        spec_hf_rows(r, n) matches Ok(s) ==> spec_contexts_below(s.0, r.context_offset + r.num_contexts * 495),
    decreases n,
{
    if n > 0 {
        lemma_hf_rows_contexts(r, n - 1);
        lemma_hf_cols_contexts(spec_hf_rows(r, n - 1), r, n - 1, r.rw);
    }
}

/// Every token of a region without a block-context map lies below the
/// region's context offset plus 495 contexts (37 non-zero-count buckets and
/// 458 zero-density contexts) per block context.
pub proof fn lemma_region_token_contexts(r: HfRegion)
    requires
        spec_default_ctx_region(r),
    ensures
        spec_tokenize_region(r) matches Ok(t) ==> spec_contexts_below(t, r.context_offset + r.num_contexts * 495),
{
    lemma_hf_rows_contexts(r, r.rh);
}

proof fn lemma_canonical_dims(shape: int)
    requires
        spec_canonical_for_shape(shape) is Some,
    ensures
        spec_block_dim(spec_covered_x(spec_canonical_for_shape(shape)->0)),
        spec_block_dim(spec_covered_y(spec_canonical_for_shape(shape)->0)),
{
}

/// Orders that can stand for the three DCT8x8 channels: 64 positions each,
/// all below 64.
pub open spec fn spec_orders_bounded(orders: Option<Seq<Seq<usize>>>) -> bool {
    orders matches Some(o) ==> o.len() == 3 && forall|c: int|
        0 <= c < 3 ==> (#[trigger] o[c]).len() == 64 && forall|k: int| 0 <= k < 64 ==> o[c][k] < 64
}

/// A tokenized transform reads its coefficients in an order of
/// `nb * 64` positions inside the transform (`nb` its number of blocks).
pub(crate) proof fn lemma_cell_order_in_transform(r: HfRegion, ci: int, bx: int, by: int)
    requires
        spec_cell_tokenized(r, bx, by),
        0 <= ci < 3,
        spec_orders_bounded(r.orders),
    ensures
        ({
            let t = spec_cell_transform(r, bx, by);
            let nb = spec_covered_x(t) * spec_covered_y(t);
            let order = spec_cell_order(r, ci, bx, by);
            &&& 1 <= spec_covered_x(t)
            &&& 1 <= spec_covered_y(t)
            &&& order.len() == nb * 64
            &&& forall|k: int| 0 <= k < nb * 64 ==> #[trigger] order[k] < nb * 64
        }),
{
    let t = spec_cell_transform(r, bx, by);
    lemma_transform_blocks(t);
    if t == HfTransformType::DCT {
        lemma_zigzag_facts();
        assert(spec_covered_x(t) * spec_covered_y(t) == 1);
    } else {
        let shape = spec_shape_id(t) as int;
        lemma_canonical_dims(shape);
        let ct = spec_canonical_for_shape(shape)->0;
        crate::scan_perm::lemma_natural_order_permutation(spec_covered_x(ct), spec_covered_y(ct));
    }
}

/// The coefficients that a region codes as tokens are the same in any valid
/// custom DCT8x8 orders as in the zigzag: so if none of them is `i32::MIN`
/// with the zigzag, none is with the custom orders.
pub proof fn lemma_region_no_min_any_orders(r: HfRegion, o: Seq<Seq<usize>>)
    requires
        r.orders is None,
        spec_region_no_min(r),
        o.len() == 3,
        forall|c: int| 0 <= c < 3 ==> spec_valid_order_8x8(#[trigger] o[c]),
    ensures
        spec_region_no_min(HfRegion { orders: Some(o), ..r }),
{
    let r2 = HfRegion { orders: Some(o), ..r };
    lemma_zigzag_facts();
    assert forall|bx: int, by: int|
        0 <= bx < r2.rw && 0 <= by < r2.rh && spec_cell_tokenized(r2, bx, by) implies #[trigger] spec_cell_no_min(
        r2,
        bx,
        by,
    ) by {
        assert(spec_cell_tokenized(r, bx, by));
        assert(spec_cell_no_min(r, bx, by));
        let t = spec_cell_transform(r, bx, by);
        assert(spec_cell_transform(r2, bx, by) == t);
        let nb = spec_covered_x(t) * spec_covered_y(t);
        assert forall|ci: int, k: int| 0 <= ci < 3 && nb <= k < nb * 64 implies #[trigger] spec_cell_vals(
            r2,
            ci,
            bx,
            by,
        )[k] != i32::MIN by {
            if t == HfTransformType::DCT {
                let oc = o[ci];
                assert(spec_valid_order_8x8(oc));
                assert(nb == 1);
                assert(spec_contains(spec_zigzag_8x8(), oc[k]));
                let j = choose|j: int| 0 <= j < spec_zigzag_8x8().len() && spec_zigzag_8x8()[j] == oc[k];
                assert(oc[k] != oc[0]);
                assert(j != 0);
                assert(spec_cell_order(r2, ci, bx, by) == oc);
                assert(spec_cell_order(r, ci, bx, by) == spec_zigzag_8x8());
                assert(spec_cell_vals(r2, ci, bx, by)[k] == spec_cell_vals(r, ci, bx, by)[j]);
            } else {
                assert(spec_cell_order(r2, ci, bx, by) == spec_cell_order(r, ci, bx, by));
                assert(spec_cell_vals(r2, ci, bx, by)[k] == spec_cell_vals(r, ci, bx, by)[k]);
            }
        }
    }
}

} // verus!

use vstd::prelude::*;
use crate::error::Error;
use crate::tokenize::AcToken;
use vstd::arithmetic::div_mod::lemma_fundamental_div_mod_converse;

verus! {

/// Number of block contexts behind `num_ac_contexts` AC contexts (at least
/// 1); each block context owns 37 non-zero-count contexts and 458
/// zero-density contexts.
pub open spec fn spec_num_block_contexts(num_ac_contexts: nat) -> nat {
    if num_ac_contexts / 495 >= 1 {
        num_ac_contexts / 495
    } else {
        1
    }
}

/// Block context of coefficient context `ctx` (at or past the `nzc`
/// non-zero-count contexts), clamped to the last block context.
pub open spec fn spec_coeff_block_context(ctx: nat, nzc: nat, nbc: nat) -> nat {
    let bc = ((ctx - nzc) as nat) / 458;
    if bc < nbc - 1 {
        bc
    } else {
        (nbc - 1) as nat
    }
}

/// `v` clamped to `1..=hi`.
pub open spec fn spec_clamp_clusters(v: nat, hi: nat) -> nat {
    let v1: nat = if v >= 1 {
        v
    } else {
        1
    };
    if v1 <= hi {
        v1
    } else {
        hi
    }
}

/// The clustered map: every non-zero-count context in cluster 0, the
/// coefficient contexts of block context `bc` in cluster
/// `1 + bc * min(nbc, 4) / nbc`.
pub open spec fn spec_clustered_entry(num_ac_contexts: nat, ctx: nat) -> u8 {
    let nbc = spec_num_block_contexts(num_ac_contexts);
    let nzc = nbc * 37;
    let coeff_clusters: nat = if nbc < 4 {
        nbc
    } else {
        4
    };
    if ctx < nzc {
        0
    } else {
        (1 + spec_coeff_block_context(ctx, nzc, nbc) * coeff_clusters / nbc) as u8
    }
}

/// The split map: non-zero-count contexts (bucket-major) and coefficient
/// contexts (one slab per block context) each spread evenly over their own
/// clusters, the coefficient clusters numbered after the non-zero ones.
pub open spec fn spec_split_entry(
    num_ac_contexts: nat,
    nonzero_clusters: nat,
    coeff_clusters: nat,
    ctx: nat,
) -> u8 {
    let nbc = spec_num_block_contexts(num_ac_contexts);
    let nzc_clusters = spec_clamp_clusters(nonzero_clusters, nbc);
    let cc = spec_clamp_clusters(coeff_clusters, nbc);
    let nzc = nbc * 37;
    if ctx < nzc {
        ((ctx % nbc) * nzc_clusters / nbc) as u8
    } else {
        (nzc_clusters + spec_coeff_block_context(ctx, nzc, nbc) * cc / nbc) as u8
    }
}

fn num_block_contexts(num_ac_contexts: usize) -> (r: usize)
    ensures
        r == spec_num_block_contexts(num_ac_contexts as nat),
        r >= 1,
        r * 495 <= num_ac_contexts || r == 1,
{
    let n = num_ac_contexts / 495;
    if n >= 1 {
        n
    } else {
        1
    }
}

fn coeff_block_context(ctx: usize, nzc: usize, nbc: usize) -> (r: usize)
    requires
        nzc <= ctx,
        nbc >= 1,
    ensures
        r == spec_coeff_block_context(ctx as nat, nzc as nat, nbc as nat),
        r < nbc,
{
    let bc = (ctx - nzc) / 458;
    if bc < nbc - 1 {
        bc
    } else {
        nbc - 1
    }
}

/// The AC context map that keeps all non-zero-count contexts in one cluster
/// and splits the coefficient contexts into up to four block-context families.
pub fn build_clustered_ac_context_map(num_ac_contexts: usize) -> (r: Vec<u8>)
    ensures
        r@ == Seq::new(num_ac_contexts as nat, |i: int| spec_clustered_entry(num_ac_contexts as nat, i as nat)),
{
    let nbc = num_block_contexts(num_ac_contexts);
    assert(nbc * 37 <= num_ac_contexts || nbc == 1) by (nonlinear_arith)
        requires
            nbc * 495 <= num_ac_contexts || nbc == 1,
    ;
    let nzc = nbc * 37;
    let coeff_clusters = if nbc < 4 {
        nbc
    } else {
        4
    };
    let mut map: Vec<u8> = Vec::new();
    let mut ctx: usize = 0;
    while ctx < num_ac_contexts
        invariant
            ctx <= num_ac_contexts,
            nbc == spec_num_block_contexts(num_ac_contexts as nat),
            nbc >= 1,
            nzc == nbc * 37,
            coeff_clusters == (if nbc < 4 { nbc } else { 4 }),
            map@ =~= Seq::new(ctx as nat, |i: int| spec_clustered_entry(num_ac_contexts as nat, i as nat)),
        decreases num_ac_contexts - ctx,
    {
        if ctx < nzc {
            map.push(0);
        } else {
            let bc = coeff_block_context(ctx, nzc, nbc);
            assert(bc * coeff_clusters <= 4 * nbc) by (nonlinear_arith)
                requires
                    bc < nbc,
                    coeff_clusters <= 4,
            ;
            let cluster = 1 + bc * coeff_clusters / nbc;
            map.push(cluster as u8);
        }
        ctx = ctx + 1;
    }
    map
}

/// An AC context map with `nonzero_clusters` clusters for the non-zero-count
/// contexts and `coeff_clusters` for the coefficient contexts, each clamped
/// to `1..=` the number of block contexts.
pub fn build_split_ac_context_map(
    num_ac_contexts: usize,
    nonzero_clusters: usize,
    coeff_clusters: usize,
) -> (r: Vec<u8>)
    requires
        spec_num_block_contexts(num_ac_contexts as nat) * spec_num_block_contexts(
            num_ac_contexts as nat,
        ) * 2 <= usize::MAX,
    ensures
        r@ == Seq::new(
            num_ac_contexts as nat,
            |i: int|
                spec_split_entry(
                    num_ac_contexts as nat,
                    nonzero_clusters as nat,
                    coeff_clusters as nat,
                    i as nat,
                ),
        ),
{
    let nbc = num_block_contexts(num_ac_contexts);
    let nz1 = if nonzero_clusters >= 1 {
        nonzero_clusters
    } else {
        1
    };
    let nzcl = if nz1 <= nbc {
        nz1
    } else {
        nbc
    };
    let c1 = if coeff_clusters >= 1 {
        coeff_clusters
    } else {
        1
    };
    let cc = if c1 <= nbc {
        c1
    } else {
        nbc
    };
    assert(nbc * 37 <= num_ac_contexts || nbc == 1) by (nonlinear_arith)
        requires
            nbc * 495 <= num_ac_contexts || nbc == 1,
    ;
    let nzc = nbc * 37;
    let mut map: Vec<u8> = Vec::new();
    let mut ctx: usize = 0;
    while ctx < num_ac_contexts
        invariant
            ctx <= num_ac_contexts,
            nbc == spec_num_block_contexts(num_ac_contexts as nat),
            nbc >= 1,
            nbc * nbc * 2 <= usize::MAX,
            nzc == nbc * 37,
            nzcl == spec_clamp_clusters(nonzero_clusters as nat, nbc as nat),
            cc == spec_clamp_clusters(coeff_clusters as nat, nbc as nat),
            1 <= nzcl <= nbc,
            1 <= cc <= nbc,
            map@ =~= Seq::new(
                ctx as nat,
                |i: int|
                    spec_split_entry(
                        num_ac_contexts as nat,
                        nonzero_clusters as nat,
                        coeff_clusters as nat,
                        i as nat,
                    ),
            ),
        decreases num_ac_contexts - ctx,
    {
        if ctx < nzc {
            let bc = ctx % nbc;
            assert(bc * nzcl <= nbc * nbc) by (nonlinear_arith)
                requires
                    bc < nbc,
                    nzcl <= nbc,
            ;
            let cluster = bc * nzcl / nbc;
            map.push(cluster as u8);
        } else {
            let bc = coeff_block_context(ctx, nzc, nbc);
            assert(bc * cc <= nbc * nbc && (bc * cc) as int / (nbc as int) <= nbc) by (nonlinear_arith)
                requires
                    bc < nbc,
                    cc <= nbc,
                    nbc >= 1,
            ;
            let cluster = nzcl + bc * cc / nbc;
            map.push(cluster as u8);
        }
        ctx = ctx + 1;
    }
    map
}

/// Sum of the first `n` counts.
pub open spec fn spec_sum(counts: Seq<u64>, n: int) -> nat
    decreases n,
{
    if n <= 0 {
        0
    } else {
        spec_sum(counts, n - 1) + counts[n - 1] as nat
    }
}

/// Usage of block context `bc` among the first `n` non-zero-count contexts
/// (bucket-major: context `ctx` belongs to block context `ctx % nbc`).
pub open spec fn spec_nonzero_usage(counts: Seq<u64>, nbc: nat, bc: nat, n: int) -> nat
    decreases n,
{
    if n <= 0 {
        0
    } else {
        spec_nonzero_usage(counts, nbc, bc, n - 1) + if ((n - 1) as nat) % nbc == bc {
            counts[n - 1] as nat
        } else {
            0
        }
    }
}

/// Usage of block context `bc` among the coefficient contexts `nzc..n`.
pub open spec fn spec_coeff_usage(counts: Seq<u64>, nbc: nat, nzc: nat, bc: nat, n: int) -> nat
    decreases n,
{
    if n <= nzc {
        0
    } else {
        spec_coeff_usage(counts, nbc, nzc, bc, n - 1) + if spec_coeff_block_context(
            (n - 1) as nat,
            nzc,
            nbc,
        ) == bc {
            counts[n - 1] as nat
        } else {
            0
        }
    }
}

/// Block context `a` is more used than `b`, or as much and comes first.
pub open spec fn spec_more_used(usage: Seq<u64>, a: int, b: int) -> bool {
    usage[a] > usage[b] || (usage[a] == usage[b] && a < b)
}

/// Position of block context `b` when the first `n` are sorted by usage,
/// most used first, ties in index order.
pub open spec fn spec_usage_rank(usage: Seq<u64>, b: int, n: int) -> nat
    decreases n,
{
    if n <= 0 {
        0
    } else {
        spec_usage_rank(usage, b, n - 1) + if spec_more_used(usage, n - 1, b) {
            1nat
        } else {
            0nat
        }
    }
}

/// Cluster of block context `b`: its own for the `clusters - 1` most used,
/// the last one shared by the rest.
pub open spec fn spec_popularity_cluster(usage: Seq<u64>, b: int, clusters: nat) -> nat {
    let rank = spec_usage_rank(usage, b, usage.len() as int);
    if rank + 1 < clusters {
        rank
    } else {
        (clusters - 1) as nat
    }
}

/// Usage per block context of the non-zero-count contexts.
pub open spec fn spec_nonzero_usages(counts: Seq<u64>, num_ac_contexts: nat) -> Seq<u64> {
    let nbc = spec_num_block_contexts(num_ac_contexts);
    let nzc = nbc * 37;
    let lim: int = if nzc < counts.len() {
        nzc as int
    } else {
        counts.len() as int
    };
    Seq::new(nbc, |b: int| spec_nonzero_usage(counts, nbc, b as nat, lim) as u64)
}

/// Usage per block context of the coefficient contexts.
pub open spec fn spec_coeff_usages(counts: Seq<u64>, num_ac_contexts: nat) -> Seq<u64> {
    let nbc = spec_num_block_contexts(num_ac_contexts);
    Seq::new(nbc, |b: int| spec_coeff_usage(counts, nbc, nbc * 37, b as nat, counts.len() as int) as u64)
}

/// The popularity-split map: the most used block-context families keep
/// clusters of their own, the rest share one, separately for non-zero-count
/// and coefficient contexts.
pub open spec fn spec_popularity_entry(
    num_ac_contexts: nat,
    counts: Seq<u64>,
    nonzero_clusters: nat,
    coeff_clusters: nat,
    ctx: nat,
) -> u8 {
    let nbc = spec_num_block_contexts(num_ac_contexts);
    let nzcl = spec_clamp_clusters(nonzero_clusters, nbc);
    let cc = spec_clamp_clusters(coeff_clusters, nbc);
    let nzc = nbc * 37;
    if ctx < nzc {
        spec_popularity_cluster(spec_nonzero_usages(counts, num_ac_contexts), (ctx % nbc) as int, nzcl) as u8
    } else {
        (nzcl + spec_popularity_cluster(
            spec_coeff_usages(counts, num_ac_contexts),
            spec_coeff_block_context(ctx, nzc, nbc) as int,
            cc,
        )) as u8
    }
}

proof fn lemma_sum_monotonic(counts: Seq<u64>, m: int, n: int)
    requires
        0 <= m <= n,
    ensures
        spec_sum(counts, m) <= spec_sum(counts, n),
    decreases n - m,
{
    if n > m {
        lemma_sum_monotonic(counts, m, n - 1);
    }
}

proof fn lemma_nonzero_usage_bound(counts: Seq<u64>, nbc: nat, bc: nat, n: int)
    requires
        n >= 0,
    ensures
        spec_nonzero_usage(counts, nbc, bc, n) <= spec_sum(counts, n),
    decreases n,
{
    if n > 0 {
        lemma_nonzero_usage_bound(counts, nbc, bc, n - 1);
    }
}

proof fn lemma_coeff_usage_bound(counts: Seq<u64>, nbc: nat, nzc: nat, bc: nat, n: int)
    requires
        n >= 0,
    ensures
        spec_coeff_usage(counts, nbc, nzc, bc, n) <= spec_sum(counts, n),
    decreases n,
{
    if n > nzc {
        lemma_coeff_usage_bound(counts, nbc, nzc, bc, n - 1);
    } else if n > 0 {
        lemma_sum_monotonic(counts, 0, n);
    }
}

proof fn lemma_usage_rank_bound(usage: Seq<u64>, b: int, n: int)
    requires
        n >= 0,
    ensures
        spec_usage_rank(usage, b, n) <= n,
    decreases n,
{
    if n > 0 {
        lemma_usage_rank_bound(usage, b, n - 1);
    }
}

/// Clusters for each block context by popularity rank.
fn popularity_clusters(usage: &Vec<u64>, clusters: usize) -> (r: Vec<usize>)
    requires
        clusters >= 1,
    ensures
        r.len() == usage.len(),
        forall|b: int| 0 <= b < usage.len() ==> #[trigger] r@[b] == spec_popularity_cluster(usage@, b, clusters as nat),
        forall|b: int| 0 <= b < usage.len() ==> #[trigger] r@[b] < clusters,
{
    let n = usage.len();
    let mut out: Vec<usize> = Vec::new();
    let mut b: usize = 0;
    while b < n
        invariant
            b <= n,
            n == usage.len(),
            clusters >= 1,
            out.len() == b,
            forall|t: int| 0 <= t < b ==> #[trigger] out@[t] == spec_popularity_cluster(usage@, t, clusters as nat),
            forall|t: int| 0 <= t < b ==> #[trigger] out@[t] < clusters,
        decreases n - b,
    {
        let mut rank: usize = 0;
        let mut j: usize = 0;
        while j < n
            invariant
                j <= n,
                b < n,
                n == usage.len(),
                rank == spec_usage_rank(usage@, b as int, j as int),
                rank <= j,
            decreases n - j,
        {
            if usage[j] > usage[b] || (usage[j] == usage[b] && j < b) {
                rank = rank + 1;
            }
            j = j + 1;
        }
        let cluster = if rank < clusters - 1 {
            rank
        } else {
            clusters - 1
        };
        out.push(cluster);
        b = b + 1;
    }
    out
}

/// An AC context map that gives the most used block-context families
/// clusters of their own (by the usage in `context_counts`) and merges the
/// rest, separately for non-zero-count and coefficient contexts.
pub fn build_popularity_split_ac_context_map(
    num_ac_contexts: usize,
    context_counts: &[u64],
    nonzero_clusters: usize,
    coeff_clusters: usize,
) -> (r: Vec<u8>)
    requires
        spec_sum(context_counts@, context_counts@.len() as int) <= u64::MAX,
    ensures
        r@ == Seq::new(
            num_ac_contexts as nat,
            |i: int|
                spec_popularity_entry(
                    num_ac_contexts as nat,
                    context_counts@,
                    nonzero_clusters as nat,
                    coeff_clusters as nat,
                    i as nat,
                ),
        ),
{
    let ghost counts = context_counts@;
    let len = context_counts.len();
    let nbc = num_block_contexts(num_ac_contexts);
    let nz1 = if nonzero_clusters >= 1 {
        nonzero_clusters
    } else {
        1
    };
    let nzcl = if nz1 <= nbc {
        nz1
    } else {
        nbc
    };
    let c1 = if coeff_clusters >= 1 {
        coeff_clusters
    } else {
        1
    };
    let cc = if c1 <= nbc {
        c1
    } else {
        nbc
    };
    assert(nbc * 37 <= num_ac_contexts || nbc == 1) by (nonlinear_arith)
        requires
            nbc * 495 <= num_ac_contexts || nbc == 1,
    ;
    let nzc = nbc * 37;
    let mut nonzero_usage: Vec<u64> = Vec::new();
    let mut coeff_usage: Vec<u64> = Vec::new();
    let mut b: usize = 0;
    while b < nbc
        invariant
            b <= nbc,
            nonzero_usage.len() == b,
            coeff_usage.len() == b,
            forall|t: int| 0 <= t < b ==> #[trigger] nonzero_usage@[t] == 0,
            forall|t: int| 0 <= t < b ==> #[trigger] coeff_usage@[t] == 0,
        decreases nbc - b,
    {
        nonzero_usage.push(0);
        coeff_usage.push(0);
        b = b + 1;
    }
    let lim = if nzc < len {
        nzc
    } else {
        len
    };
    let mut ctx: usize = 0;
    while ctx < lim
        invariant
            ctx <= lim,
            lim <= len,
            len == counts.len(),
            context_counts@ == counts,
            nbc >= 1,
            nonzero_usage.len() == nbc,
            spec_sum(counts, len as int) <= u64::MAX,
            forall|t: int| 0 <= t < nbc ==> #[trigger] nonzero_usage@[t] == spec_nonzero_usage(counts, nbc as nat, t as nat, ctx as int),
        decreases lim - ctx,
    {
        let bc = ctx % nbc;
        proof {
            lemma_nonzero_usage_bound(counts, nbc as nat, bc as nat, ctx + 1);
            lemma_sum_monotonic(counts, ctx + 1, len as int);
        }
        let u = nonzero_usage[bc];
        nonzero_usage.set(bc, u + context_counts[ctx]);
        ctx = ctx + 1;
    }
    let mut ctx: usize = nzc;
    if ctx < len {
        while ctx < len
            invariant
                nzc <= ctx <= len,
                nzc == nbc * 37,
                len == counts.len(),
                context_counts@ == counts,
                nbc >= 1,
                coeff_usage.len() == nbc,
                spec_sum(counts, len as int) <= u64::MAX,
                forall|t: int| 0 <= t < nbc ==> #[trigger] coeff_usage@[t] == spec_coeff_usage(counts, nbc as nat, nzc as nat, t as nat, ctx as int),
            decreases len - ctx,
        {
            let bc = coeff_block_context(ctx, nzc, nbc);
            proof {
                lemma_coeff_usage_bound(counts, nbc as nat, nzc as nat, bc as nat, ctx + 1);
                lemma_sum_monotonic(counts, ctx + 1, len as int);
            }
            let u = coeff_usage[bc];
            coeff_usage.set(bc, u + context_counts[ctx]);
            ctx = ctx + 1;
        }
    }
    proof {
        assert(nonzero_usage@ =~= spec_nonzero_usages(counts, num_ac_contexts as nat));
        if nzc >= len {
            assert forall|t: int| 0 <= t < nbc implies #[trigger] coeff_usage@[t] == spec_coeff_usage(counts, nbc as nat, nzc as nat, t as nat, len as int) by {}
        }
        assert(coeff_usage@ =~= spec_coeff_usages(counts, num_ac_contexts as nat));
    }
    let nz_cluster = popularity_clusters(&nonzero_usage, nzcl);
    let coeff_cluster = popularity_clusters(&coeff_usage, cc);
    let mut map: Vec<u8> = Vec::new();
    let mut ctx: usize = 0;
    while ctx < num_ac_contexts
        invariant
            ctx <= num_ac_contexts,
            nbc == spec_num_block_contexts(num_ac_contexts as nat),
            nbc >= 1,
            nzc == nbc * 37,
            nzcl == spec_clamp_clusters(nonzero_clusters as nat, nbc as nat),
            cc == spec_clamp_clusters(coeff_clusters as nat, nbc as nat),
            1 <= nzcl <= nbc,
            1 <= cc <= nbc,
            nonzero_usage@ == spec_nonzero_usages(counts, num_ac_contexts as nat),
            coeff_usage@ == spec_coeff_usages(counts, num_ac_contexts as nat),
            nz_cluster.len() == nbc,
            coeff_cluster.len() == nbc,
            forall|b: int| 0 <= b < nbc ==> #[trigger] nz_cluster@[b] == spec_popularity_cluster(nonzero_usage@, b, nzcl as nat),
            forall|b: int| 0 <= b < nbc ==> #[trigger] coeff_cluster@[b] == spec_popularity_cluster(coeff_usage@, b, cc as nat),
            forall|b: int| 0 <= b < nbc ==> #[trigger] coeff_cluster@[b] < cc,
            map@ =~= Seq::new(
                ctx as nat,
                |i: int|
                    spec_popularity_entry(
                        num_ac_contexts as nat,
                        counts,
                        nonzero_clusters as nat,
                        coeff_clusters as nat,
                        i as nat,
                    ),
            ),
        decreases num_ac_contexts - ctx,
    {
        if ctx < nzc {
            let c = nz_cluster[ctx % nbc];
            map.push(c as u8);
        } else {
            let bc = coeff_block_context(ctx, nzc, nbc);
            let c = nzcl + coeff_cluster[bc];
            map.push(c as u8);
        }
        ctx = ctx + 1;
    }
    map
}

/// Number of clusters a context map uses: its largest entry plus one (1 for
/// an empty map).
pub open spec fn spec_num_clusters(map: Seq<u8>) -> nat
    decreases map.len(),
{
    if map.len() == 0 {
        1
    } else {
        let rest = spec_num_clusters(map.drop_last());
        if map.len() == 1 || map.last() as nat + 1 > rest {
            map.last() as nat + 1
        } else {
            rest
        }
    }
}

/// Number of clusters used by a context map.
pub fn num_clusters_in_context_map(context_map: &[u8]) -> (r: usize)
    ensures
        r == spec_num_clusters(context_map@),
        1 <= r <= 256,
        forall|i: int| 0 <= i < context_map@.len() ==> #[trigger] context_map@[i] < r,
{
    let n = context_map.len();
    let mut best: usize = 1;
    let mut i: usize = 0;
    while i < n
        invariant
            i <= n,
            n == context_map@.len(),
            1 <= best <= 256,
            best == spec_num_clusters(context_map@.subrange(0, i as int)),
            forall|t: int| 0 <= t < i ==> #[trigger] context_map@[t] < best,
        decreases n - i,
    {
        let v = context_map[i] as usize + 1;
        assert(context_map@.subrange(0, i + 1).drop_last() =~= context_map@.subrange(0, i as int));
        if i == 0 || v > best {
            best = v;
        }
        i = i + 1;
    }
    assert(context_map@.subrange(0, n as int) =~= context_map@);
    best
}

/// Cluster counts (non-zero, coefficient) of the split candidates.
pub open spec fn spec_split_preset(k: int) -> (nat, nat) {
    if k == 0 {
        (1, 1)
    } else if k == 1 {
        (1, 2)
    } else if k == 2 {
        (1, 4)
    } else if k == 3 {
        (1, 8)
    } else if k == 4 {
        (2, 1)
    } else if k == 5 {
        (2, 2)
    } else if k == 6 {
        (2, 4)
    } else if k == 7 {
        (2, 8)
    } else if k == 8 {
        (3, 3)
    } else if k == 9 {
        (3, 6)
    } else if k == 10 {
        (4, 4)
    } else {
        (4, 8)
    }
}

/// Cluster counts (non-zero, coefficient) of the popularity candidates.
pub open spec fn spec_popularity_preset(k: int) -> (nat, nat) {
    if k == 0 {
        (2, 4)
    } else if k == 1 {
        (3, 6)
    } else if k == 2 {
        (4, 8)
    } else {
        (6, 10)
    }
}

/// `a` capped at `b`.
pub open spec fn spec_min(a: nat, b: nat) -> nat {
    if a < b {
        a
    } else {
        b
    }
}

/// Candidate `k` (of 19) of the AC context maps: all zeros, the clustered
/// map, twelve split presets, the fully split map and four popularity presets.
pub open spec fn spec_candidate(num_ac_contexts: nat, counts: Seq<u64>, k: int) -> Seq<u8> {
    let nbc = spec_num_block_contexts(num_ac_contexts);
    if k == 0 {
        Seq::new(num_ac_contexts, |i: int| 0u8)
    } else if k == 1 {
        Seq::new(num_ac_contexts, |i: int| spec_clustered_entry(num_ac_contexts, i as nat))
    } else if k < 14 {
        let p = spec_split_preset(k - 2);
        Seq::new(
            num_ac_contexts,
            |i: int| spec_split_entry(num_ac_contexts, spec_min(p.0, nbc), spec_min(p.1, nbc), i as nat),
        )
    } else if k == 14 {
        Seq::new(num_ac_contexts, |i: int| spec_split_entry(num_ac_contexts, nbc, nbc, i as nat))
    } else {
        let p = spec_popularity_preset(k - 15);
        Seq::new(
            num_ac_contexts,
            |i: int|
                spec_popularity_entry(num_ac_contexts, counts, spec_min(p.0, nbc), spec_min(p.1, nbc), i as nat),
        )
    }
}

/// `d` with `x` appended unless `d` already holds it.
pub open spec fn spec_dedup_step(d: Seq<Seq<u8>>, x: Seq<u8>) -> Seq<Seq<u8>> {
    if d.contains(x) {
        d
    } else {
        d.push(x)
    }
}

/// `s` without repeats, first occurrences kept in order.
pub open spec fn spec_dedup(s: Seq<Seq<u8>>) -> Seq<Seq<u8>>
    decreases s.len(),
{
    if s.len() == 0 {
        Seq::empty()
    } else {
        spec_dedup_step(spec_dedup(s.drop_last()), s.last())
    }
}

pub(crate) proof fn lemma_dedup_props(s: Seq<Seq<u8>>)
    ensures
        spec_dedup(s).no_duplicates(),
        forall|k: int| 0 <= k < spec_dedup(s).len() ==> s.contains(#[trigger] spec_dedup(s)[k]),
        s.len() > 0 ==> spec_dedup(s).len() > 0 && spec_dedup(s)[0] == s[0],
    decreases s.len(),
{
    if s.len() > 0 {
        let t = s.drop_last();
        lemma_dedup_props(t);
        let d = spec_dedup(t);
        assert forall|k: int| 0 <= k < d.len() implies s.contains(#[trigger] d[k]) by {
            let j = choose|j: int| 0 <= j < t.len() && t[j] == d[k];
            assert(s[j] == d[k]);
        }
        if !d.contains(s.last()) {
            let e = d.push(s.last());
            assert forall|i: int, j: int| 0 <= i < e.len() && 0 <= j < e.len() && i != j implies e[i] != e[j] by {
                if i == d.len() as int {
                    assert(e[j] == d[j]);
                } else if j == d.len() as int {
                    assert(e[i] == d[i]);
                }
            }
            assert forall|k: int| 0 <= k < e.len() implies s.contains(#[trigger] e[k]) by {
                if k == d.len() as int {
                    assert(s[s.len() - 1] == e[k]);
                } else {
                    assert(e[k] == d[k]);
                }
            }
        }
    }
}

/// The candidate AC context maps, without repeats, in candidate order.
pub open spec fn spec_candidates(num_ac_contexts: nat, counts: Seq<u64>) -> Seq<Seq<u8>> {
    spec_dedup(Seq::new(19, |k: int| spec_candidate(num_ac_contexts, counts, k)))
}

/// The views of a sequence of maps.
pub open spec fn spec_map_views(v: Seq<Vec<u8>>) -> Seq<Seq<u8>> {
    v.map_values(|m: Vec<u8>| m@)
}

fn same_map(a: &Vec<u8>, b: &Vec<u8>) -> (r: bool)
    ensures
        r == (a@ == b@),
{
    if a.len() != b.len() {
        return false;
    }
    let n = a.len();
    let mut i: usize = 0;
    while i < n
        invariant
            i <= n,
            n == a.len(),
            n == b.len(),
            forall|t: int| 0 <= t < i ==> a@[t] == b@[t],
        decreases n - i,
    {
        if a[i] != b[i] {
            return false;
        }
        i = i + 1;
    }
    assert(a@ =~= b@);
    true
}

pub(crate) fn push_unique(unique: &mut Vec<Vec<u8>>, candidate: Vec<u8>)
    ensures
        spec_map_views(final(unique)@) == spec_dedup_step(spec_map_views(old(unique)@), candidate@),
{
    let n = unique.len();
    let mut i: usize = 0;
    while i < n
        invariant
            i <= n,
            n == unique.len(),
            forall|t: int| 0 <= t < i ==> unique@[t]@ != candidate@,
        decreases n - i,
    {
        if same_map(&unique[i], &candidate) {
            proof {
                assert(spec_map_views(unique@)[i as int] == candidate@);
            }
            return;
        }
        i = i + 1;
    }
    proof {
        assert(!spec_map_views(unique@).contains(candidate@));
    }
    let ghost before = unique@;
    unique.push(candidate);
    assert(spec_map_views(unique@) =~= spec_map_views(before).push(candidate@));
}

fn zero_map(n: usize) -> (r: Vec<u8>)
    ensures
        r@ == Seq::new(n as nat, |i: int| 0u8),
{
    let mut map: Vec<u8> = Vec::new();
    let mut i: usize = 0;
    while i < n
        invariant
            i <= n,
            map@ =~= Seq::new(i as nat, |t: int| 0u8),
        decreases n - i,
    {
        map.push(0);
        i = i + 1;
    }
    map
}

fn ac_context_map_candidate(num_ac_contexts: usize, context_counts: &[u64], k: usize) -> (r: Vec<u8>)
    requires
        k < 19,
        spec_num_block_contexts(num_ac_contexts as nat) * spec_num_block_contexts(
            num_ac_contexts as nat,
        ) * 2 <= usize::MAX,
        spec_sum(context_counts@, context_counts@.len() as int) <= u64::MAX,
    ensures
        r@ == spec_candidate(num_ac_contexts as nat, context_counts@, k as int),
{
    let nbc = num_block_contexts(num_ac_contexts);
    if k == 0 {
        zero_map(num_ac_contexts)
    } else if k == 1 {
        build_clustered_ac_context_map(num_ac_contexts)
    } else if k < 14 {
        let (a, b): (usize, usize) = match k - 2 {
            0 => (1, 1),
            1 => (1, 2),
            2 => (1, 4),
            3 => (1, 8),
            4 => (2, 1),
            5 => (2, 2),
            6 => (2, 4),
            7 => (2, 8),
            8 => (3, 3),
            9 => (3, 6),
            10 => (4, 4),
            _ => (4, 8),
        };
        let a2 = if a < nbc {
            a
        } else {
            nbc
        };
        let b2 = if b < nbc {
            b
        } else {
            nbc
        };
        build_split_ac_context_map(num_ac_contexts, a2, b2)
    } else if k == 14 {
        build_split_ac_context_map(num_ac_contexts, nbc, nbc)
    } else {
        let (a, b): (usize, usize) = match k - 15 {
            0 => (2, 4),
            1 => (3, 6),
            2 => (4, 8),
            _ => (6, 10),
        };
        let a2 = if a < nbc {
            a
        } else {
            nbc
        };
        let b2 = if b < nbc {
            b
        } else {
            nbc
        };
        build_popularity_split_ac_context_map(num_ac_contexts, context_counts, a2, b2)
    }
}

/// The candidate AC context maps an encoder tries: all zeros, the clustered
/// map, a grid of split maps, the fully split map and popularity-guided maps,
/// without repeats.
pub fn build_ac_context_map_candidates(num_ac_contexts: usize, context_counts: &[u64]) -> (r: Vec<Vec<u8>>)
    requires
        spec_num_block_contexts(num_ac_contexts as nat) * spec_num_block_contexts(
            num_ac_contexts as nat,
        ) * 2 <= usize::MAX,
        spec_sum(context_counts@, context_counts@.len() as int) <= u64::MAX,
    ensures
        spec_map_views(r@) == spec_candidates(num_ac_contexts as nat, context_counts@),
{
    let ghost cands = Seq::new(19, |k: int| spec_candidate(num_ac_contexts as nat, context_counts@, k));
    let mut unique: Vec<Vec<u8>> = Vec::new();
    let mut k: usize = 0;
    assert(cands.take(0) =~= Seq::<Seq<u8>>::empty());
    assert(spec_map_views(unique@) =~= Seq::<Seq<u8>>::empty());
    while k < 19
        invariant
            k <= 19,
            cands == Seq::new(19, |k: int| spec_candidate(num_ac_contexts as nat, context_counts@, k)),
            spec_num_block_contexts(num_ac_contexts as nat) * spec_num_block_contexts(
                num_ac_contexts as nat,
            ) * 2 <= usize::MAX,
            spec_sum(context_counts@, context_counts@.len() as int) <= u64::MAX,
            spec_map_views(unique@) == spec_dedup(cands.take(k as int)),
        decreases 19 - k,
    {
        let c = ac_context_map_candidate(num_ac_contexts, context_counts, k);
        push_unique(&mut unique, c);
        assert(cands.take(k + 1).drop_last() =~= cands.take(k as int));
        k = k + 1;
    }
    assert(cands.take(19) =~= cands);
    unique
}

/// Number of the first `n` (token, symbol) pairs whose context maps to
/// cluster `c` and whose symbol is `v`.
pub open spec fn spec_pair_freq(map: Seq<u8>, tokens: Seq<AcToken>, symbols: Seq<u32>, c: int, v: int, n: int) -> nat
    decreases n,
{
    if n <= 0 {
        0
    } else {
        spec_pair_freq(map, tokens, symbols, c, v, n - 1) + if map[tokens[n - 1].context as int] == c
            && symbols[n - 1] == v {
            1nat
        } else {
            0nat
        }
    }
}

/// One of the first `n` tokens has a context past the map.
pub open spec fn spec_has_bad_context(map: Seq<u8>, tokens: Seq<AcToken>, n: int) -> bool {
    exists|i: int| 0 <= i < n && #[trigger] tokens[i].context >= map.len()
}

/// Number of (token, symbol) pairs of a token list: the shorter length.
pub open spec fn spec_pairs(tokens: Seq<AcToken>, symbols: Seq<u32>) -> int {
    if tokens.len() < symbols.len() {
        tokens.len() as int
    } else {
        symbols.len() as int
    }
}

/// Frequencies per cluster of the groups `0..g`, for cluster `c`, symbol `v`.
pub open spec fn spec_groups_freq(
    map: Seq<u8>,
    groups: Seq<Seq<AcToken>>,
    symbols: Seq<Seq<u32>>,
    c: int,
    v: int,
    g: int,
) -> nat
    decreases g,
{
    if g <= 0 {
        0
    } else {
        spec_groups_freq(map, groups, symbols, c, v, g - 1) + spec_pair_freq(
            map,
            groups[g - 1],
            symbols[g - 1],
            c,
            v,
            spec_pairs(groups[g - 1], symbols[g - 1]),
        )
    }
}

/// Some group among `0..g` has a token whose context is past the map.
pub open spec fn spec_groups_bad(map: Seq<u8>, groups: Seq<Seq<AcToken>>, symbols: Seq<Seq<u32>>, g: int) -> bool {
    exists|j: int|
        0 <= j < g && #[trigger] spec_has_bad_context(map, groups[j], spec_pairs(groups[j], symbols[j]))
}

proof fn lemma_flat_index(c: int, v: int, c2: int, v2: int, alpha: int)
    requires
        alpha > 0,
        0 <= v < alpha,
        0 <= v2 < alpha,
        c * alpha + v == c2 * alpha + v2,
    ensures
        c == c2,
        v == v2,
{
    lemma_fundamental_div_mod_converse(c * alpha + v, alpha, c, v);
    lemma_fundamental_div_mod_converse(c2 * alpha + v2, alpha, c2, v2);
}

proof fn lemma_flat_bound(c: int, v: int, nc: int, alpha: int)
    requires
        0 <= c < nc,
        0 <= v < alpha,
    ensures
        0 <= c * alpha + v < nc * alpha,
{
    assert(0 <= c * alpha + v < nc * alpha) by (nonlinear_arith)
        requires
            0 <= c < nc,
            0 <= v < alpha,
    ;
}

/// Adds the (cluster, symbol) pairs of one token list to the flat table
/// `freqs` (cluster-major, `alphabet_size` symbols per cluster).
fn add_pair_frequencies(
    freqs: &mut Vec<u64>,
    context_map: &[u8],
    num_clusters: usize,
    alphabet_size: usize,
    tokens: &[AcToken],
    symbols: &[u32],
    Ghost(base): Ghost<Seq<u64>>,
    Ghost(limit): Ghost<nat>,
) -> (r: Result<(), Error>)
    requires
        alphabet_size > 0,
        old(freqs).len() == num_clusters * alphabet_size,
        forall|i: int| 0 <= i < context_map@.len() ==> #[trigger] context_map@[i] < num_clusters,
        forall|i: int| 0 <= i < spec_pairs(tokens@, symbols@) ==> #[trigger] symbols@[i] < alphabet_size,
        forall|c: int, v: int|
            0 <= c < num_clusters && 0 <= v < alphabet_size ==> #[trigger] old(freqs)@[c * alphabet_size + v]
                == base[c * alphabet_size + v],
        forall|t: int| 0 <= t < base.len() ==> #[trigger] base[t] + tokens@.len() <= limit,
        limit <= u64::MAX,
        base.len() == num_clusters * alphabet_size,
    ensures
        final(freqs).len() == old(freqs).len(),
        r is Err <==> spec_has_bad_context(context_map@, tokens@, spec_pairs(tokens@, symbols@)),
        r is Err ==> r == Err::<(), Error>(Error::InvalidAnsHistogram),
        r is Ok ==> forall|c: int, v: int|
            0 <= c < num_clusters && 0 <= v < alphabet_size ==> #[trigger] final(freqs)@[c * alphabet_size + v]
                == base[c * alphabet_size + v] + spec_pair_freq(
                context_map@,
                tokens@,
                symbols@,
                c,
                v,
                spec_pairs(tokens@, symbols@),
            ),
{
    let n = if tokens.len() < symbols.len() {
        tokens.len()
    } else {
        symbols.len()
    };
    let map_len = context_map.len();
    let mut i: usize = 0;
    while i < n
        invariant
            i <= n,
            n == spec_pairs(tokens@, symbols@),
            old(freqs).len() == num_clusters * alphabet_size,
            map_len == context_map@.len(),
            alphabet_size > 0,
            freqs.len() == num_clusters * alphabet_size,
            forall|t: int| 0 <= t < context_map@.len() ==> #[trigger] context_map@[t] < num_clusters,
            forall|t: int| 0 <= t < n ==> #[trigger] symbols@[t] < alphabet_size,
            forall|t: int| 0 <= t < base.len() ==> #[trigger] base[t] + tokens@.len() <= limit,
            limit <= u64::MAX,
            base.len() == num_clusters * alphabet_size,
            !spec_has_bad_context(context_map@, tokens@, i as int),
            forall|c: int, v: int|
                0 <= c < num_clusters && 0 <= v < alphabet_size ==> #[trigger] freqs@[c * alphabet_size + v]
                    == base[c * alphabet_size + v] + spec_pair_freq(context_map@, tokens@, symbols@, c, v, i as int),
            forall|c: int, v: int|
                0 <= c < num_clusters && 0 <= v < alphabet_size ==> #[trigger] spec_pair_freq(context_map@, tokens@, symbols@, c, v, i as int) <= i,
        decreases n - i,
    {
        let ctx = tokens[i].context;
        if ctx >= map_len {
            assert(tokens@[i as int].context >= context_map@.len());
            return Err(Error::InvalidAnsHistogram);
        }
        let cl = context_map[ctx] as usize;
        let sym = symbols[i] as usize;
        proof {
            lemma_flat_bound(cl as int, sym as int, num_clusters as int, alphabet_size as int);
            assert(freqs@[cl * alphabet_size + sym] == base[cl * alphabet_size + sym] + spec_pair_freq(context_map@, tokens@, symbols@, cl as int, sym as int, i as int));
            assert(base[cl * alphabet_size + sym] + tokens@.len() <= limit);
        }
        let idx = cl * alphabet_size + sym;
        let old_v = freqs[idx];
        let ghost before = freqs@;
        freqs.set(idx, old_v + 1);
        proof {
            assert forall|c: int, v: int|
                0 <= c < num_clusters && 0 <= v < alphabet_size implies #[trigger] freqs@[c * alphabet_size + v]
                    == base[c * alphabet_size + v] + spec_pair_freq(context_map@, tokens@, symbols@, c, v, i + 1) by {
                lemma_flat_bound(c, v, num_clusters as int, alphabet_size as int);
                if c * alphabet_size + v == idx {
                    lemma_flat_index(c, v, cl as int, sym as int, alphabet_size as int);
                } else {
                    assert(before[c * alphabet_size + v] == freqs@[c * alphabet_size + v]);
                }
            }
            assert forall|c: int, v: int|
                0 <= c < num_clusters && 0 <= v < alphabet_size implies #[trigger] spec_pair_freq(context_map@, tokens@, symbols@, c, v, i + 1) <= i + 1 by {
                assert(spec_pair_freq(context_map@, tokens@, symbols@, c, v, i as int) <= i);
            }
            assert(!spec_has_bad_context(context_map@, tokens@, i + 1)) by {
                if spec_has_bad_context(context_map@, tokens@, i + 1) {
                    let w = choose|w: int| 0 <= w < i + 1 && #[trigger] tokens@[w].context >= context_map@.len();
                    assert(w < i);
                }
            }
        }
        i = i + 1;
    }
    Ok(())
}

fn unflatten(freqs: &Vec<u64>, num_clusters: usize, alphabet_size: usize) -> (r: Vec<Vec<u64>>)
    requires
        freqs.len() == num_clusters * alphabet_size,
    ensures
        r.len() == num_clusters,
        forall|c: int| 0 <= c < num_clusters ==> (#[trigger] r@[c]).len() == alphabet_size,
        forall|c: int, v: int|
            0 <= c < num_clusters && 0 <= v < alphabet_size ==> #[trigger] r@[c]@[v] == freqs@[c * alphabet_size + v],
{
    let mut out: Vec<Vec<u64>> = Vec::new();
    let mut c: usize = 0;
    while c < num_clusters
        invariant
            c <= num_clusters,
            freqs.len() == num_clusters * alphabet_size,
            out.len() == c,
            forall|t: int| 0 <= t < c ==> (#[trigger] out@[t]).len() == alphabet_size,
            forall|t: int, v: int|
                0 <= t < c && 0 <= v < alphabet_size ==> #[trigger] out@[t]@[v] == freqs@[t * alphabet_size + v],
        decreases num_clusters - c,
    {
        let mut row: Vec<u64> = Vec::new();
        let mut v: usize = 0;
        while v < alphabet_size
            invariant
                v <= alphabet_size,
                c < num_clusters,
                freqs.len() == num_clusters * alphabet_size,
                row.len() == v,
                forall|w: int| 0 <= w < v ==> #[trigger] row@[w] == freqs@[c * alphabet_size + w],
            decreases alphabet_size - v,
        {
            proof {
                lemma_flat_bound(c as int, v as int, num_clusters as int, alphabet_size as int);
            }
            row.push(freqs[c * alphabet_size + v]);
            v = v + 1;
        }
        out.push(row);
        c = c + 1;
    }
    out
}

/// Symbol frequencies per cluster of a token list: token `i`, with entropy
/// symbol `symbols[i]`, counts for the cluster that the context map gives
/// its context. Fails with `InvalidAnsHistogram` when a token's context is
/// past the map.
pub fn build_cluster_frequencies_for_tokens(
    context_map: &[u8],
    alphabet_size: usize,
    tokens: &[AcToken],
    symbols: &[u32],
) -> (r: Result<Vec<Vec<u64>>, Error>)
    requires
        alphabet_size > 0,
        spec_num_clusters(context_map@) * alphabet_size <= usize::MAX,
        forall|i: int| 0 <= i < spec_pairs(tokens@, symbols@) ==> #[trigger] symbols@[i] < alphabet_size,
        tokens@.len() <= u64::MAX,
    ensures
        r is Err <==> spec_has_bad_context(context_map@, tokens@, spec_pairs(tokens@, symbols@)),
        r is Err ==> r == Err::<Vec<Vec<u64>>, Error>(Error::InvalidAnsHistogram),
        r matches Ok(f) ==> {
            &&& f.len() == spec_num_clusters(context_map@)
            &&& forall|c: int| 0 <= c < f.len() ==> (#[trigger] f@[c]).len() == alphabet_size
            &&& forall|c: int, v: int|
                0 <= c < f.len() && 0 <= v < alphabet_size ==> #[trigger] f@[c]@[v] == spec_pair_freq(
                    context_map@,
                    tokens@,
                    symbols@,
                    c,
                    v,
                    spec_pairs(tokens@, symbols@),
                )
        },
{
    let num_clusters = num_clusters_in_context_map(context_map);
    let total = num_clusters * alphabet_size;
    let mut freqs: Vec<u64> = Vec::new();
    let mut t: usize = 0;
    while t < total
        invariant
            t <= total,
            freqs@ =~= Seq::new(t as nat, |i: int| 0u64),
        decreases total - t,
    {
        freqs.push(0);
        t = t + 1;
    }
    let ghost base = freqs@;
    proof {
        assert forall|c: int, v: int|
            0 <= c < num_clusters && 0 <= v < alphabet_size implies #[trigger] freqs@[c * alphabet_size + v]
                == base[c * alphabet_size + v] by {}
    }
    let res = add_pair_frequencies(
        &mut freqs,
        context_map,
        num_clusters,
        alphabet_size,
        tokens,
        symbols,
        Ghost(base),
        Ghost(tokens@.len()),
    );
    match res {
        Err(e) => Err(e),
        Ok(()) => {
            let f = unflatten(&freqs, num_clusters, alphabet_size);
            proof {
                assert forall|c: int, v: int|
                    0 <= c < num_clusters && 0 <= v < alphabet_size implies #[trigger] f@[c]@[v] == spec_pair_freq(
                        context_map@,
                        tokens@,
                        symbols@,
                        c,
                        v,
                        spec_pairs(tokens@, symbols@),
                    ) by {
                    lemma_flat_bound(c, v, num_clusters as int, alphabet_size as int);
                }
            }
            Ok(f)
        },
    }
}

/// Total number of tokens in groups `0..g`.
pub open spec fn spec_total_tokens(groups: Seq<Seq<AcToken>>, g: int) -> nat
    decreases g,
{
    if g <= 0 {
        0
    } else {
        spec_total_tokens(groups, g - 1) + groups[g - 1].len()
    }
}

proof fn lemma_pair_freq_bound(map: Seq<u8>, tokens: Seq<AcToken>, symbols: Seq<u32>, c: int, v: int, n: int)
    requires
        n >= 0,
    ensures
        spec_pair_freq(map, tokens, symbols, c, v, n) <= n,
    decreases n,
{
    if n > 0 {
        lemma_pair_freq_bound(map, tokens, symbols, c, v, n - 1);
    }
}

proof fn lemma_total_tokens_monotonic(groups: Seq<Seq<AcToken>>, g: int, h: int)
    requires
        0 <= g <= h,
    ensures
        spec_total_tokens(groups, g) <= spec_total_tokens(groups, h),
    decreases h - g,
{
    if h > g {
        lemma_total_tokens_monotonic(groups, g, h - 1);
    }
}

/// The views of a list of token groups.
pub open spec fn spec_token_groups(groups: Seq<Vec<AcToken>>) -> Seq<Seq<AcToken>> {
    groups.map_values(|g: Vec<AcToken>| g@)
}

/// The views of a list of symbol groups.
pub open spec fn spec_symbol_groups(groups: Seq<Vec<u32>>) -> Seq<Seq<u32>> {
    groups.map_values(|g: Vec<u32>| g@)
}

/// Number of groups paired with their symbol lists: the shorter length.
pub open spec fn spec_group_pairs(groups: Seq<Vec<AcToken>>, symbols: Seq<Vec<u32>>) -> int {
    if groups.len() < symbols.len() {
        groups.len() as int
    } else {
        symbols.len() as int
    }
}

/// Symbol frequencies per cluster over several token groups (each paired
/// with its symbol list). Fails with `InvalidAnsHistogram` when a token's
/// context is past the map.
pub fn build_cluster_frequencies_for_groups(
    context_map: &[u8],
    alphabet_size: usize,
    group_tokens: &[Vec<AcToken>],
    group_symbols: &[Vec<u32>],
) -> (r: Result<Vec<Vec<u64>>, Error>)
    requires
        alphabet_size > 0,
        spec_num_clusters(context_map@) * alphabet_size <= usize::MAX,
        forall|g: int, i: int|
            0 <= g < spec_group_pairs(group_tokens@, group_symbols@) && 0 <= i < spec_pairs(
                group_tokens@[g]@,
                group_symbols@[g]@,
            ) ==> #[trigger] group_symbols@[g]@[i] < alphabet_size,
        spec_total_tokens(
            spec_token_groups(group_tokens@),
            spec_group_pairs(group_tokens@, group_symbols@),
        ) <= u64::MAX,
    ensures
        r is Err <==> spec_groups_bad(
            context_map@,
            spec_token_groups(group_tokens@),
            spec_symbol_groups(group_symbols@),
            spec_group_pairs(group_tokens@, group_symbols@),
        ),
        r is Err ==> r == Err::<Vec<Vec<u64>>, Error>(Error::InvalidAnsHistogram),
        r matches Ok(f) ==> {
            &&& f.len() == spec_num_clusters(context_map@)
            &&& forall|c: int| 0 <= c < f.len() ==> (#[trigger] f@[c]).len() == alphabet_size
            &&& forall|c: int, v: int|
                0 <= c < f.len() && 0 <= v < alphabet_size ==> #[trigger] f@[c]@[v] == spec_groups_freq(
                    context_map@,
                    spec_token_groups(group_tokens@),
                    spec_symbol_groups(group_symbols@),
                    c,
                    v,
                    spec_group_pairs(group_tokens@, group_symbols@),
                )
        },
{
    let ghost tg = spec_token_groups(group_tokens@);
    let ghost sg = spec_symbol_groups(group_symbols@);
    let num_clusters = num_clusters_in_context_map(context_map);
    let total = num_clusters * alphabet_size;
    let mut freqs: Vec<u64> = Vec::new();
    let mut t: usize = 0;
    while t < total
        invariant
            t <= total,
            freqs@ =~= Seq::new(t as nat, |i: int| 0u64),
        decreases total - t,
    {
        freqs.push(0);
        t = t + 1;
    }
    let ng = if group_tokens.len() < group_symbols.len() {
        group_tokens.len()
    } else {
        group_symbols.len()
    };
    let ghost limit = spec_total_tokens(tg, ng as int);
    proof {
        assert forall|c: int, v: int|
            0 <= c < num_clusters && 0 <= v < alphabet_size implies #[trigger] freqs@[c * alphabet_size + v]
                == spec_groups_freq(context_map@, tg, sg, c, v, 0) by {
            lemma_flat_bound(c, v, num_clusters as int, alphabet_size as int);
        }
    }
    let mut g: usize = 0;
    while g < ng
        invariant
            g <= ng,
            ng == spec_group_pairs(group_tokens@, group_symbols@),
            tg == spec_token_groups(group_tokens@),
            sg == spec_symbol_groups(group_symbols@),
            alphabet_size > 0,
            num_clusters == spec_num_clusters(context_map@),
            forall|i: int| 0 <= i < context_map@.len() ==> #[trigger] context_map@[i] < num_clusters,
            freqs.len() == num_clusters * alphabet_size,
            limit == spec_total_tokens(tg, ng as int),
            limit <= u64::MAX,
            forall|h: int, i: int|
                0 <= h < ng && 0 <= i < spec_pairs(group_tokens@[h]@, group_symbols@[h]@) ==> #[trigger] group_symbols@[h]@[i]
                    < alphabet_size,
            !spec_groups_bad(context_map@, tg, sg, g as int),
            forall|t: int| 0 <= t < freqs.len() ==> #[trigger] freqs@[t] <= spec_total_tokens(tg, g as int),
            forall|c: int, v: int|
                0 <= c < num_clusters && 0 <= v < alphabet_size ==> #[trigger] freqs@[c * alphabet_size + v]
                    == spec_groups_freq(context_map@, tg, sg, c, v, g as int),
        decreases ng - g,
    {
        let ghost base = freqs@;
        proof {
            lemma_total_tokens_monotonic(tg, g + 1, ng as int);
            assert(tg[g as int] == group_tokens@[g as int]@);
            assert(sg[g as int] == group_symbols@[g as int]@);
        }
        let res = add_pair_frequencies(
            &mut freqs,
            context_map,
            num_clusters,
            alphabet_size,
            group_tokens[g].as_slice(),
            group_symbols[g].as_slice(),
            Ghost(base),
            Ghost(limit),
        );
        match res {
            Err(e) => {
                proof {
                    assert(spec_has_bad_context(context_map@, tg[g as int], spec_pairs(tg[g as int], sg[g as int])));
                    lemma_groups_bad_from(context_map@, tg, sg, g as int + 1, ng as int);
                }
                return Err(e);
            },
            Ok(()) => {},
        }
        proof {
            assert forall|c: int, v: int|
                0 <= c < num_clusters && 0 <= v < alphabet_size implies #[trigger] freqs@[c * alphabet_size + v]
                    == spec_groups_freq(context_map@, tg, sg, c, v, g + 1) by {}
            assert forall|t: int| 0 <= t < freqs.len() implies #[trigger] freqs@[t] <= spec_total_tokens(tg, g + 1) by {
                let c = t / alphabet_size as int;
                let v = t % alphabet_size as int;
                assert(t == c * alphabet_size + v && 0 <= c < num_clusters && 0 <= v < alphabet_size) by (nonlinear_arith)
                    requires
                        0 <= t < num_clusters * alphabet_size,
                        alphabet_size > 0,
                        c == t / alphabet_size as int,
                        v == t % alphabet_size as int,
                ;
                lemma_pair_freq_bound(context_map@, tg[g as int], sg[g as int], c, v, spec_pairs(tg[g as int], sg[g as int]));
            }
            assert(!spec_groups_bad(context_map@, tg, sg, g + 1)) by {
                if spec_groups_bad(context_map@, tg, sg, g + 1) {
                    let w = choose|w: int|
                        0 <= w < g + 1 && #[trigger] spec_has_bad_context(context_map@, tg[w], spec_pairs(tg[w], sg[w]));
                    assert(w < g);
                }
            }
        }
        g = g + 1;
    }
    let f = unflatten(&freqs, num_clusters, alphabet_size);
    proof {
        assert forall|c: int, v: int|
            0 <= c < num_clusters && 0 <= v < alphabet_size implies #[trigger] f@[c]@[v] == spec_groups_freq(
                context_map@,
                tg,
                sg,
                c,
                v,
                ng as int,
            ) by {
            lemma_flat_bound(c, v, num_clusters as int, alphabet_size as int);
        }
    }
    Ok(f)
}

proof fn lemma_groups_bad_from(map: Seq<u8>, groups: Seq<Seq<AcToken>>, symbols: Seq<Seq<u32>>, g: int, h: int)
    requires
        1 <= g <= h,
        spec_has_bad_context(map, groups[g - 1], spec_pairs(groups[g - 1], symbols[g - 1])),
    ensures
        spec_groups_bad(map, groups, symbols, h),
{
}


/// The AC context-map candidates are pairwise distinct, each assigns a
/// cluster to every one of the `num_ac_contexts` contexts, and the first one
/// puts every context in cluster 0.
pub proof fn lemma_context_map_candidates_props(num_ac_contexts: nat, counts: Seq<u64>)
    ensures
        spec_candidates(num_ac_contexts, counts).no_duplicates(),
        spec_candidates(num_ac_contexts, counts).len() >= 1,
        spec_candidates(num_ac_contexts, counts)[0] == Seq::new(num_ac_contexts, |i: int| 0u8),
        forall|k: int|
            0 <= k < spec_candidates(num_ac_contexts, counts).len() ==> (#[trigger] spec_candidates(
                num_ac_contexts,
                counts,
            )[k]).len() == num_ac_contexts,
{
    let list = Seq::new(19, |k: int| spec_candidate(num_ac_contexts, counts, k));
    let c = spec_candidates(num_ac_contexts, counts);
    lemma_dedup_props(list);
    assert(list[0] == Seq::new(num_ac_contexts, |i: int| 0u8));
    assert forall|k: int| 0 <= k < c.len() implies (#[trigger] c[k]).len() == num_ac_contexts by {
        let j = choose|j: int| 0 <= j < list.len() && list[j] == c[k];
        assert(list[j] == spec_candidate(num_ac_contexts, counts, j));
    }
}

} // verus!

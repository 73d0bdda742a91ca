use vstd::prelude::*;
use vstd::set_lib::{lemma_int_range, lemma_len_subset, lemma_subset_equality, set_int_range};
use crate::transform_map::spec_region_block;
use crate::transform::{
    canonical_transform_for_shape_id, covered_blocks_x, covered_blocks_y, spec_canonical_for_shape,
    spec_covered_x, spec_covered_y, HfTransformType,
};

verus! {

/// Block counts a transform side can have: powers of two up to 32.
pub open spec fn spec_block_dim(n: nat) -> bool {
    n == 1 || n == 2 || n == 4 || n == 8 || n == 16 || n == 32
}

/// Visits position (`x`, `y`) of the `cx*8` x `cx*8` square that the scan
/// order enumerates, given the order built so far and the next free slot.
/// Rows off the `cx / cy` grid are skipped; the lowest-frequency `cx` x `cy`
/// corner goes to its fixed slot `y * cx + x` (while `llf_first`), any other
/// position to the next free slot, if one is left.
pub open spec fn spec_visit(
    s: (Seq<usize>, nat),
    cx: nat,
    cy: nat,
    x: nat,
    y: nat,
    llf_first: bool,
) -> (Seq<usize>, nat) {
    let xsize = cx * 8;
    let xs = cx / cy;
    if y % xs != 0 {
        s
    } else {
        let y2 = y / xs;
        let value = (y2 * xsize + x) as usize;
        if llf_first && x < cx && y2 < cy {
            (s.0.update((y2 * cx + x) as int, value), s.1)
        } else if s.1 < s.0.len() {
            (s.0.update(s.1 as int, value), s.1 + 1)
        } else {
            s
        }
    }
}

/// Position `j` on anti-diagonal `i` of the upper-left half of the square;
/// odd diagonals run the other way.
pub open spec fn spec_first_half_pos(i: nat, j: nat) -> (nat, nat) {
    if i % 2 != 0 {
        ((i - j) as nat, j)
    } else {
        (j, (i - j) as nat)
    }
}

/// Position `j` on the `ir`-th anti-diagonal of the lower-right half of the
/// `xsize` x `xsize` square.
pub open spec fn spec_second_half_pos(xsize: nat, ir: nat, j: nat) -> (nat, nat) {
    let i = (xsize - ir - 1) as nat;
    let x = (xsize - 1 - (i - j)) as nat;
    let y = (xsize - 1 - j) as nat;
    if i % 2 != 0 {
        (y, x)
    } else {
        (x, y)
    }
}

/// State after the first `n` positions of diagonal `i` of the upper half.
pub open spec fn spec_first_diag(s: (Seq<usize>, nat), cx: nat, cy: nat, i: nat, n: nat) -> (Seq<
    usize,
>, nat)
    decreases n,
{
    if n == 0 {
        s
    } else {
        let p = spec_first_half_pos(i, (n - 1) as nat);
        spec_visit(spec_first_diag(s, cx, cy, i, (n - 1) as nat), cx, cy, p.0, p.1, true)
    }
}

/// State after the first `n` diagonals of the upper half.
pub open spec fn spec_first_half(s: (Seq<usize>, nat), cx: nat, cy: nat, n: nat) -> (Seq<usize>, nat)
    decreases n,
{
    if n == 0 {
        s
    } else {
        spec_first_diag(spec_first_half(s, cx, cy, (n - 1) as nat), cx, cy, (n - 1) as nat, n)
    }
}

/// State after the first `n` positions of diagonal `ir` of the lower half.
pub open spec fn spec_second_diag(s: (Seq<usize>, nat), cx: nat, cy: nat, ir: nat, n: nat) -> (Seq<
    usize,
>, nat)
    decreases n,
{
    if n == 0 {
        s
    } else {
        let p = spec_second_half_pos(cx * 8, ir, (n - 1) as nat);
        spec_visit(spec_second_diag(s, cx, cy, ir, (n - 1) as nat), cx, cy, p.0, p.1, false)
    }
}

/// State after diagonals `1..n` of the lower half.
pub open spec fn spec_second_half(s: (Seq<usize>, nat), cx: nat, cy: nat, n: nat) -> (Seq<usize>, nat)
    decreases n,
{
    if n <= 1 {
        s
    } else {
        let ir = (n - 1) as nat;
        spec_second_diag(spec_second_half(s, cx, cy, ir), cx, cy, ir, (cx * 8 - ir) as nat)
    }
}

/// Starting state: all slots zero, free slots begin after the `cx * cy`
/// lowest-frequency coefficients.
pub open spec fn spec_order_start(cx: nat, cy: nat) -> (Seq<usize>, nat) {
    (Seq::new(cx * cy * 64, |i: int| 0usize), cx * cy)
}

/// Scan order of a `cx` x `cy`-block transform with `cx >= cy`: the
/// lowest-frequency coefficients first, then the zigzag over the
/// `cx*8` x `cx*8` square, keeping the rows on the `cx / cy` grid.
pub open spec fn spec_wide_order(cx: nat, cy: nat) -> Seq<usize> {
    let xsize = cx * 8;
    spec_second_half(
        spec_first_half(spec_order_start(cx, cy), cx, cy, xsize),
        cx,
        cy,
        xsize,
    ).0
}

/// Scan order of a `cx` x `cy`-block transform, as coefficient indices in
/// row-major order over a transform `cx*8` wide; a tall shape takes the order
/// of its transpose, transposed back.
pub open spec fn spec_natural_order(cx: nat, cy: nat) -> Seq<usize> {
    if cx < cy {
        spec_wide_order(cy, cx).map_values(
            |idx: usize| ((idx as nat % (cy * 8)) * (cx * 8) + idx as nat / (cy * 8)) as usize,
        )
    } else {
        spec_wide_order(cx, cy)
    }
}

proof fn lemma_dim_ratio(cx: nat, cy: nat)
    requires
        spec_block_dim(cx),
        spec_block_dim(cy),
        cy <= cx,
    ensures
        (cx / cy) * cy == cx,
        cx * 8 == (cx / cy) * (cy * 8),
{
    if cy == 1 {
    } else if cy == 2 {
        assert(cx / 2 * 2 == cx);
    } else if cy == 4 {
        assert(cx / 4 * 4 == cx);
    } else if cy == 8 {
        assert(cx / 8 * 8 == cx);
    } else if cy == 16 {
        assert(cx / 16 * 16 == cx);
    } else {
        assert(cx / 32 * 32 == cx);
    }
    assert(cx * 8 == (cx / cy) * (cy * 8)) by (nonlinear_arith)
        requires
            (cx / cy) * cy == cx,
    ;
}

fn visit_position(
    out: &mut Vec<usize>,
    cur: &mut usize,
    cx: usize,
    cy: usize,
    x: usize,
    y: usize,
    llf_first: bool,
)
    requires
        spec_block_dim(cx as nat),
        spec_block_dim(cy as nat),
        cy <= cx,
        x < cx * 8,
        y < cx * 8,
        old(out).len() == cx * cy * 64,
        *old(cur) <= old(out).len(),
        forall|i: int| 0 <= i < old(out).len() ==> #[trigger] old(out)@[i] < cx * cy * 64,
    ensures
        (final(out)@, *final(cur) as nat) == spec_visit(
            (old(out)@, *old(cur) as nat),
            cx as nat,
            cy as nat,
            x as nat,
            y as nat,
            llf_first,
        ),
        final(out).len() == old(out).len(),
        *final(cur) <= final(out).len(),
        forall|i: int| 0 <= i < final(out).len() ==> #[trigger] final(out)@[i] < cx * cy * 64,
{
    let xsize = cx * 8;
    let xs = cx / cy;
    assert(xs >= 1) by (nonlinear_arith)
        requires
            1 <= cy <= cx,
            xs == cx / cy,
    ;
    if y % xs != 0 {
        return ;
    }
    let y2 = y / xs;
    proof {
        lemma_dim_ratio(cx as nat, cy as nat);
    }
    assert(y2 < cy * 8) by (nonlinear_arith)
        requires
            xs >= 1,
            y2 == y / xs,
            y < xs * (cy * 8),
    ;
    assert(y2 * xsize + x < cx * cy * 64 && cx * cy * 64 <= 256 * 256) by (nonlinear_arith)
        requires
            y2 < cy * 8,
            xsize == cx * 8,
            x < xsize,
            cx <= 32,
            cy <= 32,
    ;
    let value = y2 * xsize + x;
    if llf_first && x < cx && y2 < cy {
        assert(y2 * cx + x < cx * cy) by (nonlinear_arith)
            requires
                y2 < cy,
                x < cx,
        ;
        out.set(y2 * cx + x, value);
    } else if *cur < out.len() {
        out.set(*cur, value);
        *cur = *cur + 1;
    }
}

fn wide_coeff_order(cx: usize, cy: usize) -> (r: Vec<usize>)
    requires
        spec_block_dim(cx as nat),
        spec_block_dim(cy as nat),
        cy <= cx,
    ensures
        r@ == spec_wide_order(cx as nat, cy as nat),
        r.len() == cx * cy * 64,
        forall|i: int| 0 <= i < r.len() ==> #[trigger] r@[i] < cx * cy * 64,
{
    let xsize = cx * 8;
    assert(cx * cy * 64 <= 32 * 32 * 64) by (nonlinear_arith)
        requires
            cx <= 32,
            cy <= 32,
    ;
    assert(cx * cy <= cx * cy * 64) by (nonlinear_arith);
    let len = cx * cy * 64;
    let mut out: Vec<usize> = Vec::new();
    let mut k: usize = 0;
    while k < len
        invariant
            k <= len,
            out@ =~= Seq::new(k as nat, |i: int| 0usize),
        decreases len - k,
    {
        out.push(0);
        k = k + 1;
    }
    let mut cur: usize = cx * cy;
    let ghost start = (out@, cur as nat);
    assert(start == spec_order_start(cx as nat, cy as nat));
    assert(cx * cy * 64 > 0) by (nonlinear_arith)
        requires
            cx >= 1,
            cy >= 1,
    ;
    assert(forall|t: int| 0 <= t < out.len() ==> #[trigger] out@[t] == 0usize);
    let mut i: usize = 0;
    while i < xsize
        invariant
            spec_block_dim(cx as nat),
            spec_block_dim(cy as nat),
            cy <= cx,
            xsize == cx * 8,
            len == cx * cy * 64,
            i <= xsize,
            out.len() == len,
            cur <= len,
            forall|t: int| 0 <= t < out.len() ==> #[trigger] out@[t] < cx * cy * 64,
            (out@, cur as nat) == spec_first_half(start, cx as nat, cy as nat, i as nat),
        decreases xsize - i,
    {
        let ghost before = spec_first_half(start, cx as nat, cy as nat, i as nat);
        let mut j: usize = 0;
        while j <= i
            invariant
                spec_block_dim(cx as nat),
                spec_block_dim(cy as nat),
                cy <= cx,
                xsize == cx * 8,
                len == cx * cy * 64,
                i < xsize,
                j <= i + 1,
                out.len() == len,
                cur <= len,
                forall|t: int| 0 <= t < out.len() ==> #[trigger] out@[t] < cx * cy * 64,
                (out@, cur as nat) == spec_first_diag(before, cx as nat, cy as nat, i as nat, j as nat),
            decreases i + 1 - j,
        {
            let (x, y) = if i % 2 != 0 {
                (i - j, j)
            } else {
                (j, i - j)
            };
            visit_position(&mut out, &mut cur, cx, cy, x, y, true);
            j = j + 1;
        }
        i = i + 1;
    }
    let ghost upper = spec_first_half(start, cx as nat, cy as nat, xsize as nat);
    let mut ir: usize = 1;
    while ir < xsize
        invariant
            spec_block_dim(cx as nat),
            spec_block_dim(cy as nat),
            cy <= cx,
            xsize == cx * 8,
            len == cx * cy * 64,
            1 <= ir <= xsize,
            out.len() == len,
            cur <= len,
            forall|t: int| 0 <= t < out.len() ==> #[trigger] out@[t] < cx * cy * 64,
            (out@, cur as nat) == spec_second_half(upper, cx as nat, cy as nat, ir as nat),
        decreases xsize - ir,
    {
        let ghost before = spec_second_half(upper, cx as nat, cy as nat, ir as nat);
        let i = xsize - ir - 1;
        let mut j: usize = 0;
        while j <= i
            invariant
                spec_block_dim(cx as nat),
                spec_block_dim(cy as nat),
                cy <= cx,
                xsize == cx * 8,
                len == cx * cy * 64,
                1 <= ir < xsize,
                i == xsize - ir - 1,
                j <= i + 1,
                out.len() == len,
                cur <= len,
                forall|t: int| 0 <= t < out.len() ==> #[trigger] out@[t] < cx * cy * 64,
                (out@, cur as nat) == spec_second_diag(before, cx as nat, cy as nat, ir as nat, j as nat),
            decreases i + 1 - j,
        {
            let px = xsize - 1 - (i - j);
            let py = xsize - 1 - j;
            let (x, y) = if i % 2 != 0 {
                (py, px)
            } else {
                (px, py)
            };
            visit_position(&mut out, &mut cur, cx, cy, x, y, false);
            j = j + 1;
        }
        ir = ir + 1;
    }
    out
}

/// Scan order of the coefficients of a transform covering `cx` x `cy`
/// blocks: entry `k` is the row-major index (over a transform `cx*8`
/// coefficients wide) of the `k`-th coefficient in scan order.
pub fn natural_coeff_order_from_dims(cx: usize, cy: usize) -> (r: Vec<usize>)
    requires
        spec_block_dim(cx as nat),
        spec_block_dim(cy as nat),
    ensures
        r@ == spec_natural_order(cx as nat, cy as nat),
        r.len() == cx * cy * 64,
        forall|i: int| 0 <= i < r.len() ==> #[trigger] r@[i] < cx * cy * 64,
{
    if cx < cy {
        let transposed = wide_coeff_order(cy, cx);
        let xsize = cx * 8;
        let transposed_xsize = cy * 8;
        let ghost t = transposed@;
        let ghost want = spec_natural_order(cx as nat, cy as nat);
        let mut out: Vec<usize> = Vec::new();
        let mut k: usize = 0;
        while k < transposed.len()
            invariant
                k <= transposed.len(),
                transposed@ == t,
                t.len() == cy * cx * 64,
                forall|i: int| 0 <= i < t.len() ==> #[trigger] t[i] < cy * cx * 64,
                xsize == cx * 8,
                transposed_xsize == cy * 8,
                1 <= cx <= 32,
                1 <= cy <= 32,
                want == t.map_values(
                    |idx: usize|
                        ((idx as nat % (cy as nat * 8)) * (cx as nat * 8) + idx as nat / (cy as nat
                            * 8)) as usize,
                ),
                out@ =~= want.subrange(0, k as int),
                forall|i: int| 0 <= i < out.len() ==> #[trigger] out@[i] < cx * cy * 64,
            decreases transposed.len() - k,
        {
            let idx = transposed[k];
            assert(t[k as int] < cy * cx * 64);
            let tx = idx % transposed_xsize;
            let ty = idx / transposed_xsize;
            assert(tx * xsize + ty < cx * cy * 64 && cx * cy * 64 <= 256 * 256) by (nonlinear_arith)
                requires
                    tx < transposed_xsize,
                    transposed_xsize == cy * 8,
                    xsize == cx * 8,
                    1 <= cx <= 32,
                    1 <= cy <= 32,
                    idx < cy * cx * 64,
                    ty == idx / transposed_xsize,
                    tx == idx % transposed_xsize,
            ;
            out.push(tx * xsize + ty);
            k = k + 1;
        }
        assert(out@ =~= want);
        out
    } else {
        wide_coeff_order(cx, cy)
    }
}

/// The zigzag scan of an 8x8 block.
pub open spec fn spec_zigzag_8x8() -> Seq<usize> {
    seq![
        0usize, 1, 8, 16, 9, 2, 3, 10, 17, 24, 32, 25, 18, 11, 4, 5, 12, 19, 26, 33, 40, 48, 41, 34,
        27, 20, 13, 6, 7, 14, 21, 28, 35, 42, 49, 56, 57, 50, 43, 36, 29, 22, 15, 23, 30, 37, 44,
        51, 58, 59, 52, 45, 38, 31, 39, 46, 53, 60, 61, 54, 47, 55, 62, 63,
    ]
}

/// Scan order of the 8x8 DCT: the zigzag, as a table.
pub fn natural_coeff_order_8x8() -> (r: [usize; 64])
    ensures
        r@ == spec_zigzag_8x8(),
{
    let order: [usize; 64] = [
        0, 1, 8, 16, 9, 2, 3, 10, 17, 24, 32, 25, 18, 11, 4, 5, 12, 19, 26, 33, 40, 48, 41, 34, 27,
        20, 13, 6, 7, 14, 21, 28, 35, 42, 49, 56, 57, 50, 43, 36, 29, 22, 15, 23, 30, 37, 44, 51,
        58, 59, 52, 45, 38, 31, 39, 46, 53, 60, 61, 54, 47, 55, 62, 63,
    ];
    assert(order@ =~= spec_zigzag_8x8());
    order
}

/// Scan order of the coefficients of a transform.
pub fn natural_coeff_order_for_transform(transform: HfTransformType) -> (r: Vec<usize>)
    ensures
        r@ == spec_natural_order(spec_covered_x(transform), spec_covered_y(transform)),
        r.len() == spec_covered_x(transform) * spec_covered_y(transform) * 64,
        forall|i: int|
            0 <= i < r.len() ==> #[trigger] r@[i] < spec_covered_x(transform) * spec_covered_y(
                transform,
            ) * 64,
{
    let cx = covered_blocks_x(transform) as usize;
    let cy = covered_blocks_y(transform) as usize;
    assert(spec_block_dim(spec_covered_x(transform)));
    assert(spec_block_dim(spec_covered_y(transform)));
    natural_coeff_order_from_dims(cx, cy)
}

/// Scan order shared by the transforms of coefficient-order shape
/// `shape_id`, or `None` for an id that names no shape.
pub fn token_shape_order(shape_id: usize) -> (r: Option<Vec<usize>>)
    ensures
        match spec_canonical_for_shape(shape_id as int) {
            None => r is None,
            Some(t) => {
                &&& r is Some
                &&& r->0@ == spec_natural_order(spec_covered_x(t), spec_covered_y(t))
                &&& r->0.len() == spec_covered_x(t) * spec_covered_y(t) * 64
                &&& forall|i: int|
                    0 <= i < r->0.len() ==> #[trigger] r->0@[i] < spec_covered_x(t) * spec_covered_y(
                        t,
                    ) * 64
            },
        },
{
    match canonical_transform_for_shape_id(shape_id) {
        None => None,
        Some(t) => Some(natural_coeff_order_for_transform(t)),
    }
}

/// Context of a value in the permutation stream: its number of binary
/// digits, capped at 7.
pub open spec fn spec_permutation_context(x: nat) -> nat {
    if x == 0 {
        0
    } else if x < 2 {
        1
    } else if x < 4 {
        2
    } else if x < 8 {
        3
    } else if x < 16 {
        4
    } else if x < 32 {
        5
    } else if x < 64 {
        6
    } else {
        7
    }
}

/// Context used for a token of the coefficient-order permutation stream.
pub fn permutation_context(x: u32) -> (r: usize)
    ensures
        r == spec_permutation_context(x as nat),
{
    if x == 0 {
        0
    } else if x < 2 {
        1
    } else if x < 4 {
        2
    } else if x < 8 {
        3
    } else if x < 16 {
        4
    } else if x < 32 {
        5
    } else if x < 64 {
        6
    } else {
        7
    }
}

/// Values of `s` are pairwise distinct.
pub open spec fn spec_distinct(s: Seq<usize>) -> bool {
    forall|i: int, j: int| 0 <= i < s.len() && 0 <= j < s.len() && i != j ==> s[i] != s[j]
}

/// `v` occurs in `s`.
pub open spec fn spec_contains(s: Seq<usize>, v: usize) -> bool {
    exists|j: int| 0 <= j < s.len() && s[j] == v
}

/// Position of value `v` in `s` (meaningful when `v` occurs in `s`).
pub open spec fn spec_position_of(s: Seq<usize>, v: usize) -> int {
    choose|j: int| 0 <= j < s.len() && s[j] == v
}

/// The permutation, relative to `natural`, that `custom` applies from
/// position `skip` on, with positions counted from `skip`.
pub open spec fn spec_relative_perm(custom: Seq<usize>, natural: Seq<usize>, skip: nat) -> Seq<int> {
    Seq::new(
        (custom.len() - skip) as nat,
        |i: int| spec_position_of(natural, custom[i + skip]) - skip,
    )
}

/// Number of positions `k` with `i < k < j` whose value is below `a[i]`.
pub open spec fn spec_smaller_after(a: Seq<int>, i: int, j: int) -> nat
    decreases j - i,
{
    if j <= i + 1 {
        0
    } else {
        spec_smaller_after(a, i, j - 1) + if a[j - 1] < a[i] {
            1nat
        } else {
            0nat
        }
    }
}

/// Lehmer code of `a`: for each position, how many later values are smaller.
pub open spec fn spec_lehmer(a: Seq<int>) -> Seq<u32> {
    Seq::new(a.len(), |i: int| spec_smaller_after(a, i, a.len() as int) as u32)
}

/// Length of `l` without its trailing zeros.
pub open spec fn spec_trimmed_len(l: Seq<u32>) -> nat
    decreases l.len(),
{
    if l.len() == 0 {
        0
    } else if l.last() != 0 {
        l.len()
    } else {
        spec_trimmed_len(l.drop_last())
    }
}

proof fn lemma_smaller_after_bound(a: Seq<int>, i: int, j: int)
    requires
        i < j,
    ensures
        spec_smaller_after(a, i, j) <= j - i - 1,
    decreases j - i,
{
    if j > i + 1 {
        lemma_smaller_after_bound(a, i, j - 1);
    }
}

proof fn lemma_trimmed_len_bound(l: Seq<u32>)
    ensures
        spec_trimmed_len(l) <= l.len(),
    decreases l.len(),
{
    if l.len() > 0 && l.last() == 0 {
        lemma_trimmed_len_bound(l.drop_last());
    }
}

/// Lehmer code of the custom order `custom` relative to `natural`, from
/// position `skip` on, and the length of that code without its trailing
/// zeros: what a decoder needs to rebuild `custom` from `natural`.
pub fn compute_lehmer_code(custom: &[usize], natural: &[usize], skip: usize) -> (r: (Vec<u32>, usize))
    requires
        custom@.len() == natural@.len(),
        natural@.len() <= 64,
        skip <= natural@.len(),
        spec_distinct(natural@),
        spec_distinct(custom@),
        forall|i: int| 0 <= i < natural@.len() ==> #[trigger] natural@[i] < 64,
        forall|i: int| 0 <= i < custom@.len() ==> spec_contains(natural@, #[trigger] custom@[i]),
        forall|i: int, j: int|
            skip <= i < custom@.len() && 0 <= j < skip ==> custom@[i] != natural@[j],
    ensures
        r.0@ == spec_lehmer(spec_relative_perm(custom@, natural@, skip as nat)),
        r.1 == spec_trimmed_len(r.0@),
        forall|i: int| 0 <= i < r.0.len() ==> #[trigger] r.0@[i] < r.0.len() - i,
{
    let n = custom.len();
    let ghost a = spec_relative_perm(custom@, natural@, skip as nat);
    let mut natural_inverse: Vec<usize> = Vec::new();
    let mut t: usize = 0;
    while t < 64
        invariant
            t <= 64,
            natural_inverse.len() == t,
        decreases 64 - t,
    {
        natural_inverse.push(0);
        t = t + 1;
    }
    let mut i: usize = 0;
    while i < n
        invariant
            n == natural@.len(),
            n <= 64,
            i <= n,
            natural_inverse.len() == 64,
            spec_distinct(natural@),
            forall|t: int| 0 <= t < natural@.len() ==> #[trigger] natural@[t] < 64,
            forall|j: int| 0 <= j < i ==> natural_inverse@[#[trigger] natural@[j] as int] == j,
        decreases n - i,
    {
        let v = natural[i];
        natural_inverse.set(v, i);
        i = i + 1;
    }
    let m = n - skip;
    let mut adjusted: Vec<usize> = Vec::new();
    let mut i: usize = 0;
    while i < m
        invariant
            n == natural@.len(),
            n == custom@.len(),
            m == n - skip,
            i <= m,
            natural_inverse.len() == 64,
            a == spec_relative_perm(custom@, natural@, skip as nat),
            spec_distinct(natural@),
            forall|t: int| 0 <= t < natural@.len() ==> #[trigger] natural@[t] < 64,
            forall|j: int| 0 <= j < n ==> natural_inverse@[#[trigger] natural@[j] as int] == j,
            forall|t: int| 0 <= t < custom@.len() ==> spec_contains(natural@, #[trigger] custom@[t]),
            forall|t: int, j: int|
                skip <= t < custom@.len() && 0 <= j < skip ==> custom@[t] != natural@[j],
            adjusted.len() == i,
            forall|t: int| 0 <= t < i ==> #[trigger] adjusted@[t] as int == a[t],
            forall|t: int| 0 <= t < i ==> #[trigger] adjusted@[t] < m,
        decreases m - i,
    {
        let c = custom[skip + i];
        let ghost jw = choose|j: int| 0 <= j < natural@.len() && natural@[j] == c;
        assert(custom@[skip + i] == c);
        assert(spec_contains(natural@, custom@[skip + i]));
        assert(0 <= jw < n && natural@[jw] == c);
        assert(natural_inverse@[natural@[jw] as int] == jw);
        let p = natural_inverse[c];
        assert(p == jw);
        assert(spec_position_of(natural@, c) == jw);
        assert(p >= skip) by {
            if p < skip {
                assert(custom@[skip + i] != natural@[p as int]);
            }
        }
        adjusted.push(p - skip);
        i = i + 1;
    }
    assert(adjusted@.len() == a.len());
    let mut lehmer: Vec<u32> = Vec::new();
    let mut i: usize = 0;
    while i < m
        invariant
            i <= m,
            m == a.len(),
            m <= 64,
            adjusted.len() == m,
            forall|t: int| 0 <= t < m ==> #[trigger] adjusted@[t] as int == a[t],
            lehmer.len() == i,
            forall|t: int| 0 <= t < i ==> #[trigger] lehmer@[t] == spec_lehmer(a)[t],
            forall|t: int| 0 <= t < i ==> #[trigger] lehmer@[t] < m - t,
        decreases m - i,
    {
        let val = adjusted[i];
        let mut count: u32 = 0;
        let mut k: usize = i + 1;
        while k < m
            invariant
                i < m,
                m <= 64,
                i + 1 <= k <= m,
                adjusted.len() == m,
                val as int == a[i as int],
                forall|t: int| 0 <= t < m ==> #[trigger] adjusted@[t] as int == a[t],
                count == spec_smaller_after(a, i as int, k as int),
                count <= k - i - 1,
            decreases m - k,
        {
            if adjusted[k] < val {
                count = count + 1;
            }
            k = k + 1;
        }
        proof {
            lemma_smaller_after_bound(a, i as int, m as int);
        }
        lehmer.push(count);
        i = i + 1;
    }
    assert(lehmer@ =~= spec_lehmer(a));
    let mut end: usize = m;
    assert(lehmer@.subrange(0, end as int) =~= lehmer@);
    while end > 0 && lehmer[end - 1] == 0
        invariant
            end <= m,
            lehmer.len() == m,
            spec_trimmed_len(lehmer@) == spec_trimmed_len(lehmer@.subrange(0, end as int)),
        decreases end,
    {
        assert(lehmer@.subrange(0, end as int).drop_last() =~= lehmer@.subrange(0, end - 1));
        end = end - 1;
    }
    proof {
        if end > 0 {
            assert(lehmer@.subrange(0, end as int).last() != 0);
        } else {
            assert(lehmer@.subrange(0, 0) =~= Seq::<u32>::empty());
        }
    }
    (lehmer, end)
}

/// Block `idx` is the first block of a DCT8x8 and, when `pos >= 0`, its
/// coefficient `pos` is non-zero.
pub open spec fn spec_dct8_hit(ac: Seq<i32>, map: Seq<u8>, idx: int, pos: int) -> bool {
    map[idx] == 0x80u8 && (pos < 0 || ac[idx * 64 + pos] != 0)
}

/// Hits among the first `n` blocks of row `y` of a region starting at column `x0`.
pub open spec fn spec_row_hits(
    ac: Seq<i32>,
    map: Seq<u8>,
    full_bw: int,
    x0: int,
    y: int,
    n: int,
    pos: int,
) -> nat
    decreases n,
{
    if n <= 0 {
        0
    } else {
        spec_row_hits(ac, map, full_bw, x0, y, n - 1, pos) + if spec_dct8_hit(
            ac,
            map,
            y * full_bw + x0 + n - 1,
            pos,
        ) {
            1nat
        } else {
            0nat
        }
    }
}

/// Hits in the first `rows` rows of the `rw`-wide region at (`x0`, `y0`).
pub open spec fn spec_region_hits(
    ac: Seq<i32>,
    map: Seq<u8>,
    full_bw: int,
    x0: int,
    y0: int,
    rw: int,
    rows: int,
    pos: int,
) -> nat
    decreases rows,
{
    if rows <= 0 {
        0
    } else {
        spec_region_hits(ac, map, full_bw, x0, y0, rw, rows - 1, pos) + spec_row_hits(
            ac,
            map,
            full_bw,
            x0,
            y0 + rows - 1,
            rw,
            pos,
        )
    }
}

/// Every block of the `rw` x `rh` region at (`x0`, `y0`) lies in the map, and
/// every DCT8x8 block among them has its coefficients in `ac`.
pub open spec fn spec_region_readable(
    ac_len: int,
    map: Seq<u8>,
    full_bw: int,
    x0: int,
    y0: int,
    rw: int,
    rh: int,
) -> bool {
    forall|bx: int, by: int|
        0 <= bx < rw && 0 <= by < rh ==> {
            let idx = #[trigger] spec_region_block(full_bw, x0, y0, bx, by);
            0 <= idx < map.len() && (map[idx] == 0x80u8 ==> idx * 64 + 64 <= ac_len)
        }
}

proof fn lemma_row_hits_bound(ac: Seq<i32>, map: Seq<u8>, full_bw: int, x0: int, y: int, n: int, pos: int)
    requires
        n >= 0,
    ensures
        spec_row_hits(ac, map, full_bw, x0, y, n, pos) <= n,
    decreases n,
{
    if n > 0 {
        lemma_row_hits_bound(ac, map, full_bw, x0, y, n - 1, pos);
    }
}

/// For each scan position `k` in 1..64, in how many DCT8x8 blocks of the
/// region the coefficient at `natural[k]` is non-zero, and how many DCT8x8
/// blocks the region has.
fn count_dct8_nonzeros(
    ac: &[i32],
    transform_map: &[u8],
    natural: &[usize; 64],
    full_bw: usize,
    x0: usize,
    y0: usize,
    rw: usize,
    rh: usize,
) -> (r: (Vec<u64>, u64))
    requires
        natural@ == spec_zigzag_8x8(),
        rw * rh <= u64::MAX,
        x0 + rw <= usize::MAX,
        y0 + rh <= usize::MAX,
        spec_region_readable(ac@.len() as int, transform_map@, full_bw as int, x0 as int, y0 as int, rw as int, rh as int),
    ensures
        r.0.len() == 64,
        forall|k: int|
            1 <= k < 64 ==> #[trigger] r.0@[k] == spec_region_hits(
                ac@,
                transform_map@,
                full_bw as int,
                x0 as int,
                y0 as int,
                rw as int,
                rh as int,
                spec_zigzag_8x8()[k] as int,
            ),
        r.1 == spec_region_hits(ac@, transform_map@, full_bw as int, x0 as int, y0 as int, rw as int, rh as int, -1),
{
    let ghost acs = ac@;
    let ghost map = transform_map@;
    let ghost fbw = full_bw as int;
    let ac_len = ac.len();
    let map_len = transform_map.len();
    let mut counts: Vec<u64> = Vec::new();
    let mut t: usize = 0;
    while t < 64
        invariant
            t <= 64,
            counts.len() == t,
            forall|k: int| 0 <= k < t ==> #[trigger] counts@[k] == 0,
        decreases 64 - t,
    {
        counts.push(0);
        t = t + 1;
    }
    let mut total: u64 = 0;
    let mut by: usize = 0;
    while by < rh
        invariant
            by <= rh,
            rw * rh <= u64::MAX,
            x0 + rw <= usize::MAX,
            y0 + rh <= usize::MAX,
            ac_len == ac@.len(),
            map_len == transform_map@.len(),
            natural@ == spec_zigzag_8x8(),
            acs == ac@,
            map == transform_map@,
            fbw == full_bw as int,
            spec_region_readable(ac@.len() as int, map, fbw, x0 as int, y0 as int, rw as int, rh as int),
            counts.len() == 64,
            forall|k: int|
                1 <= k < 64 ==> #[trigger] counts@[k] == spec_region_hits(
                    acs,
                    map,
                    fbw,
                    x0 as int,
                    y0 as int,
                    rw as int,
                    by as int,
                    spec_zigzag_8x8()[k] as int,
                ),
            total == spec_region_hits(acs, map, fbw, x0 as int, y0 as int, rw as int, by as int, -1),
            forall|k: int| 1 <= k < 64 ==> #[trigger] counts@[k] <= by * rw,
            total <= by * rw,
        decreases rh - by,
    {
        let ghost row_start = counts@;
        let ghost total_start = total as int;
        let mut bx: usize = 0;
        while bx < rw
            invariant
                by < rh,
                bx <= rw,
                rw * rh <= u64::MAX,
                x0 + rw <= usize::MAX,
                y0 + rh <= usize::MAX,
                ac_len == ac@.len(),
                map_len == transform_map@.len(),
                natural@ == spec_zigzag_8x8(),
                acs == ac@,
                map == transform_map@,
                fbw == full_bw as int,
                spec_region_readable(ac@.len() as int, map, fbw, x0 as int, y0 as int, rw as int, rh as int),
                counts.len() == 64,
                row_start.len() == 64,
                forall|k: int|
                    1 <= k < 64 ==> #[trigger] row_start[k] == spec_region_hits(
                        acs,
                        map,
                        fbw,
                        x0 as int,
                        y0 as int,
                        rw as int,
                        by as int,
                        spec_zigzag_8x8()[k] as int,
                    ),
                total_start == spec_region_hits(acs, map, fbw, x0 as int, y0 as int, rw as int, by as int, -1),
                forall|k: int|
                    1 <= k < 64 ==> #[trigger] counts@[k] == row_start[k] + spec_row_hits(
                        acs,
                        map,
                        fbw,
                        x0 as int,
                        y0 + by,
                        bx as int,
                        spec_zigzag_8x8()[k] as int,
                    ),
                total == total_start + spec_row_hits(acs, map, fbw, x0 as int, y0 + by, bx as int, -1),
                forall|k: int| 1 <= k < 64 ==> #[trigger] counts@[k] <= by * rw + bx,
                total <= by * rw + bx,
            decreases rw - bx,
        {
            assert(by * rw + bx + 1 <= rw * rh) by (nonlinear_arith)
                requires
                    by < rh,
                    bx < rw,
            ;
            let ghost idx_s = spec_region_block(fbw, x0 as int, y0 as int, bx as int, by as int);
            assert(0 <= idx_s < map.len());
            assert((y0 + by) * full_bw + (x0 + bx) == idx_s);
            assert(idx_s < map_len);
            let idx = (y0 + by) * full_bw + (x0 + bx);
            assert(idx == idx_s);
            assert(idx_s == (y0 + by) * fbw + x0 + (bx + 1) - 1);
            let raw = transform_map[idx];
            if raw == 0x80u8 {
                total = total + 1;
                let ghost before = counts@;
                let mut k: usize = 1;
                while k < 64
                    invariant
                        1 <= k <= 64,
                        natural@ == spec_zigzag_8x8(),
                        acs == ac@,
                        idx * 64 + 64 <= ac_len,
                        ac_len == ac@.len(),
                        counts.len() == 64,
                        before.len() == 64,
                        forall|t: int| k <= t < 64 ==> #[trigger] counts@[t] == before[t],
                        forall|t: int|
                            1 <= t < k ==> #[trigger] counts@[t] == before[t] + if acs[idx * 64
                                + spec_zigzag_8x8()[t] as int] != 0 {
                                1int
                            } else {
                                0int
                            },
                        forall|t: int| 1 <= t < 64 ==> #[trigger] before[t] <= by * rw + bx,
                        by * rw + bx + 1 <= rw * rh,
                        rw * rh <= u64::MAX,
                    decreases 64 - k,
                {
                    let pos = natural[k];
                    assert(pos < 64);
                    if ac[idx * 64 + pos] != 0 {
                        let c = counts[k];
                        counts.set(k, c + 1);
                    }
                    k = k + 1;
                }
            }
            bx = bx + 1;
        }
        assert(by * rw + rw == (by + 1) * rw) by (nonlinear_arith);
        proof {
            assert forall|k: int| 1 <= k < 64 implies #[trigger] counts@[k] == spec_region_hits(
                acs,
                map,
                fbw,
                x0 as int,
                y0 as int,
                rw as int,
                (by + 1) as int,
                spec_zigzag_8x8()[k] as int,
            ) by {}
        }
        by = by + 1;
    }
    (counts, total)
}

/// Scan position `a` sorts before position `b`: it has more non-zeros, or
/// as many and comes first.
pub open spec fn spec_sorts_before(counts: Seq<u64>, a: int, b: int) -> bool {
    counts[a] > counts[b] || (counts[a] == counts[b] && a < b)
}

/// Number of scan positions in `1..n` that sort before position `k`.
pub open spec fn spec_rank(counts: Seq<u64>, k: int, n: int) -> nat
    decreases n,
{
    if n <= 1 {
        0
    } else {
        spec_rank(counts, k, n - 1) + if spec_sorts_before(counts, n - 1, k) {
            1nat
        } else {
            0nat
        }
    }
}

proof fn lemma_rank_bound(counts: Seq<u64>, k: int, n: int)
    requires
        n >= 1,
    ensures
        spec_rank(counts, k, n) + (if 1 <= k < n { 1int } else { 0int }) <= n - 1,
    decreases n,
{
    if n > 1 {
        lemma_rank_bound(counts, k, n - 1);
    }
}

proof fn lemma_rank_strict(counts: Seq<u64>, a: int, b: int, n: int)
    requires
        n >= 1,
        spec_sorts_before(counts, a, b),
    ensures
        spec_rank(counts, a, n) + (if 1 <= a < n { 1int } else { 0int }) <= spec_rank(counts, b, n),
    decreases n,
{
    if n > 1 {
        lemma_rank_strict(counts, a, b, n - 1);
    }
}

/// Distinct scan positions get distinct ranks, so placing each position at
/// its rank yields a permutation of the scan positions.
pub proof fn lemma_rank_injective(counts: Seq<u64>, a: int, b: int)
    requires
        1 <= a < 64,
        1 <= b < 64,
        a != b,
    ensures
        spec_rank(counts, a, 64) != spec_rank(counts, b, 64),
{
    if spec_sorts_before(counts, a, b) {
        lemma_rank_strict(counts, a, b, 64);
    } else {
        lemma_rank_strict(counts, b, a, 64);
    }
}

/// `order` keeps the DC position first and puts the coefficient of scan
/// position `k` (of the zigzag) at slot `1 + rank`: positions with more
/// non-zeros first, ties in zigzag order.
pub open spec fn spec_is_count_order(order: Seq<usize>, counts: Seq<u64>) -> bool {
    &&& order.len() == 64
    &&& order[0] == spec_zigzag_8x8()[0]
    &&& forall|k: int|
        1 <= k < 64 ==> order[1 + #[trigger] spec_rank(counts, k, 64) as int] == spec_zigzag_8x8()[k]
}

fn order_by_nonzero_counts(natural: &[usize; 64], counts: &Vec<u64>) -> (r: [usize; 64])
    requires
        natural@ == spec_zigzag_8x8(),
        counts.len() == 64,
    ensures
        spec_is_count_order(r@, counts@),
{
    let ghost c = counts@;
    let mut result: [usize; 64] = *natural;
    let mut k: usize = 1;
    while k < 64
        invariant
            1 <= k <= 64,
            natural@ == spec_zigzag_8x8(),
            counts@ == c,
            c.len() == 64,
            result@.len() == 64,
            result@[0] == spec_zigzag_8x8()[0],
            forall|t: int|
                1 <= t < k ==> result@[1 + #[trigger] spec_rank(c, t, 64) as int] == spec_zigzag_8x8()[t],
        decreases 64 - k,
    {
        let mut rank: usize = 0;
        let mut j: usize = 1;
        while j < 64
            invariant
                1 <= k < 64,
                1 <= j <= 64,
                counts@ == c,
                c.len() == 64,
                rank == spec_rank(c, k as int, j as int),
                rank <= j,
            decreases 64 - j,
        {
            if counts[j] > counts[k] || (counts[j] == counts[k] && j < k) {
                rank = rank + 1;
            }
            j = j + 1;
        }
        proof {
            lemma_rank_bound(c, k as int, 64);
            assert forall|t: int| 1 <= t < k implies spec_rank(c, t, 64) != spec_rank(c, k as int, 64) by {
                lemma_rank_injective(c, t, k as int);
            }
        }
        let ghost prev = result@;
        let v = natural[k];
        assert(v == spec_zigzag_8x8()[k as int]);
        result[1 + rank] = v;
        assert(result@ == prev.update(1 + rank, v));
        proof {
            assert(rank == spec_rank(c, k as int, 64));
            assert forall|t: int| 1 <= t < k + 1 implies result@[1 + #[trigger] spec_rank(c, t, 64) as int]
                == spec_zigzag_8x8()[t] by {
                if t < k {
                    lemma_rank_bound(c, t, 64);
                    assert(spec_rank(c, t, 64) != spec_rank(c, k as int, 64));
                    assert(prev[1 + spec_rank(c, t, 64) as int] == spec_zigzag_8x8()[t]);
                }
            }
        }
        k = k + 1;
    }
    result
}

/// Non-zero counts per scan position of the DCT8x8 blocks of a region (0 at
/// the DC position).
pub open spec fn spec_nonzero_counts(
    ac: Seq<i32>,
    map: Seq<u8>,
    full_bw: int,
    x0: int,
    y0: int,
    rw: int,
    rh: int,
) -> Seq<u64> {
    Seq::new(
        64,
        |k: int|
            if k == 0 {
                0u64
            } else {
                spec_region_hits(ac, map, full_bw, x0, y0, rw, rh, spec_zigzag_8x8()[k] as int) as u64
            },
    )
}

/// Scan order that one channel gets: the zigzag where the region has no
/// DCT8x8 block, else the order by non-zero counts.
pub open spec fn spec_channel_order_ok(
    order: Seq<usize>,
    ac: Seq<i32>,
    map: Seq<u8>,
    full_bw: int,
    x0: int,
    y0: int,
    rw: int,
    rh: int,
) -> bool {
    if spec_region_hits(ac, map, full_bw, x0, y0, rw, rh, -1) == 0 {
        order == spec_zigzag_8x8()
    } else {
        spec_is_count_order(order, spec_nonzero_counts(ac, map, full_bw, x0, y0, rw, rh))
    }
}

fn channel_coeff_order_8x8(
    ac: &[i32],
    transform_map: &[u8],
    natural: &[usize; 64],
    full_bw: usize,
    x0: usize,
    y0: usize,
    rw: usize,
    rh: usize,
) -> (r: [usize; 64])
    requires
        natural@ == spec_zigzag_8x8(),
        rw * rh <= u64::MAX,
        x0 + rw <= usize::MAX,
        y0 + rh <= usize::MAX,
        spec_region_readable(ac@.len() as int, transform_map@, full_bw as int, x0 as int, y0 as int, rw as int, rh as int),
    ensures
        spec_channel_order_ok(r@, ac@, transform_map@, full_bw as int, x0 as int, y0 as int, rw as int, rh as int),
{
    let (counts, total) = count_dct8_nonzeros(ac, transform_map, natural, full_bw, x0, y0, rw, rh);
    if total == 0 {
        return *natural;
    }
    proof {
        let want = spec_nonzero_counts(ac@, transform_map@, full_bw as int, x0 as int, y0 as int, rw as int, rh as int);
        assert forall|k: int| 1 <= k < 64 implies #[trigger] counts@[k] == want[k] by {
            assert(counts@[k] == spec_region_hits(ac@, transform_map@, full_bw as int, x0 as int, y0 as int, rw as int, rh as int, spec_zigzag_8x8()[k] as int));
        }
        assert(forall|a: int, b: int| 1 <= a < 64 && 1 <= b < 64 ==> (spec_sorts_before(counts@, a, b) == spec_sorts_before(want, a, b)));
        assert forall|k: int| 1 <= k < 64 implies #[trigger] spec_rank(counts@, k, 64) == spec_rank(want, k, 64) by {
            lemma_rank_same(counts@, want, k, 64);
        }
    }
    let r = order_by_nonzero_counts(natural, &counts);
    proof {
        let want = spec_nonzero_counts(ac@, transform_map@, full_bw as int, x0 as int, y0 as int, rw as int, rh as int);
        assert forall|k: int| 1 <= k < 64 implies r@[1 + #[trigger] spec_rank(want, k, 64) as int] == spec_zigzag_8x8()[k] by {
            assert(spec_rank(counts@, k, 64) == spec_rank(want, k, 64));
            assert(r@[1 + spec_rank(counts@, k, 64) as int] == spec_zigzag_8x8()[k]);
        }
    }
    r
}

proof fn lemma_rank_same(c1: Seq<u64>, c2: Seq<u64>, k: int, n: int)
    requires
        1 <= k < 64,
        n <= 64,
        c1.len() == 64,
        c2.len() == 64,
        forall|a: int, b: int| 1 <= a < 64 && 1 <= b < 64 ==> (spec_sorts_before(c1, a, b) == spec_sorts_before(c2, a, b)),
    ensures
        spec_rank(c1, k, n) == spec_rank(c2, k, n),
    decreases n,
{
    if n > 1 {
        lemma_rank_same(c1, c2, k, n - 1);
        assert(spec_sorts_before(c1, n - 1, k) == spec_sorts_before(c2, n - 1, k));
    }
}

/// Scan orders for the DCT8x8 blocks of a region, one per channel (Y, X,
/// B): each channel scans the positions with more non-zero coefficients
/// first (ties in zigzag order), keeping DC first; a channel whose region
/// holds no DCT8x8 block keeps the zigzag.
pub fn compute_optimal_coeff_orders_8x8(
    ac_y: &[i32],
    ac_x: &[i32],
    ac_b: &[i32],
    transform_map: &[u8],
    full_bw: usize,
    x0: usize,
    y0: usize,
    rw: usize,
    rh: usize,
) -> (r: [[usize; 64]; 3])
    requires
        rw * rh <= u64::MAX,
        x0 + rw <= usize::MAX,
        y0 + rh <= usize::MAX,
        spec_region_readable(ac_y@.len() as int, transform_map@, full_bw as int, x0 as int, y0 as int, rw as int, rh as int),
        spec_region_readable(ac_x@.len() as int, transform_map@, full_bw as int, x0 as int, y0 as int, rw as int, rh as int),
        spec_region_readable(ac_b@.len() as int, transform_map@, full_bw as int, x0 as int, y0 as int, rw as int, rh as int),
    ensures
        spec_channel_order_ok(r[0]@, ac_y@, transform_map@, full_bw as int, x0 as int, y0 as int, rw as int, rh as int),
        spec_channel_order_ok(r[1]@, ac_x@, transform_map@, full_bw as int, x0 as int, y0 as int, rw as int, rh as int),
        spec_channel_order_ok(r[2]@, ac_b@, transform_map@, full_bw as int, x0 as int, y0 as int, rw as int, rh as int),
        r[0]@ == spec_optimal_order(ac_y@, transform_map@, full_bw as int, x0 as int, y0 as int, rw as int, rh as int),
        r[1]@ == spec_optimal_order(ac_x@, transform_map@, full_bw as int, x0 as int, y0 as int, rw as int, rh as int),
        r[2]@ == spec_optimal_order(ac_b@, transform_map@, full_bw as int, x0 as int, y0 as int, rw as int, rh as int),
{
    let natural = natural_coeff_order_8x8();
    let oy = channel_coeff_order_8x8(ac_y, transform_map, &natural, full_bw, x0, y0, rw, rh);
    let ox = channel_coeff_order_8x8(ac_x, transform_map, &natural, full_bw, x0, y0, rw, rh);
    let ob = channel_coeff_order_8x8(ac_b, transform_map, &natural, full_bw, x0, y0, rw, rh);
    proof {
        let (w, gx, gy, cw, ch) = (full_bw as int, x0 as int, y0 as int, rw as int, rh as int);
        let m = transform_map@;
        lemma_channel_order_unique(oy@, spec_optimal_order(ac_y@, m, w, gx, gy, cw, ch), ac_y@, m, w, gx, gy, cw, ch);
        lemma_channel_order_unique(ox@, spec_optimal_order(ac_x@, m, w, gx, gy, cw, ch), ac_x@, m, w, gx, gy, cw, ch);
        lemma_channel_order_unique(ob@, spec_optimal_order(ac_b@, m, w, gx, gy, cw, ch), ac_b@, m, w, gx, gy, cw, ch);
    }
    [oy, ox, ob]
}

/// The scan order of one channel that `compute_optimal_coeff_orders_8x8`
/// picks: the only order with `spec_channel_order_ok`.
pub open spec fn spec_optimal_order(
    ac: Seq<i32>,
    map: Seq<u8>,
    full_bw: int,
    x0: int,
    y0: int,
    rw: int,
    rh: int,
) -> Seq<usize> {
    choose|o: Seq<usize>| spec_channel_order_ok(o, ac, map, full_bw, x0, y0, rw, rh)
}

/// Every slot 1..64 of a count order receives some scan position: the ranks
/// of positions 1..64 are exactly 0..63.
proof fn lemma_ranks_cover(counts: Seq<u64>, s: int)
    requires
        0 <= s < 63,
    ensures
        exists|k: int| 1 <= k < 64 && #[trigger] spec_rank(counts, k, 64) == s,
{
    broadcast use vstd::set::group_set_axioms;
    broadcast use vstd::seq_lib::seq_to_set_is_finite;
    let ranks = Seq::new(63, |i: int| spec_rank(counts, i + 1, 64) as int);
    assert forall|i: int, j: int| 0 <= i < 63 && 0 <= j < 63 && i != j implies ranks[i] != ranks[j] by {
        lemma_rank_injective(counts, i + 1, j + 1);
    }
    assert(ranks.no_duplicates());
    assert forall|i: int| 0 <= i < 63 implies 0 <= #[trigger] ranks[i] < 63 by {
        lemma_rank_bound(counts, i + 1, 64);
    }
    ranks.unique_seq_to_set();
    lemma_int_range(0, 63);
    assert(ranks.to_set().subset_of(set_int_range(0, 63))) by {
        assert forall|x: int| ranks.to_set().contains(x) implies set_int_range(0, 63).contains(x) by {
            let i = choose|i: int| 0 <= i < ranks.len() && ranks[i] == x;
            assert(0 <= ranks[i] < 63);
        }
    }
    lemma_len_subset(ranks.to_set(), set_int_range(0, 63));
    lemma_subset_equality(ranks.to_set(), set_int_range(0, 63));
    assert(set_int_range(0, 63).contains(s));
    assert(ranks.to_set().contains(s));
    let i = choose|i: int| 0 <= i < ranks.len() && ranks[i] == s;
    assert(spec_rank(counts, i + 1, 64) == s);
}

/// At most one order sorts the scan positions by given non-zero counts.
pub proof fn lemma_count_order_unique(o1: Seq<usize>, o2: Seq<usize>, counts: Seq<u64>)
    requires
        spec_is_count_order(o1, counts),
        spec_is_count_order(o2, counts),
    ensures
        o1 == o2,
{
    assert forall|s: int| 0 <= s < 64 implies o1[s] == o2[s] by {
        if s > 0 {
            lemma_ranks_cover(counts, s - 1);
            let k = choose|k: int| 1 <= k < 64 && #[trigger] spec_rank(counts, k, 64) == s - 1;
            assert(o1[1 + spec_rank(counts, k, 64) as int] == spec_zigzag_8x8()[k]);
            assert(o2[1 + spec_rank(counts, k, 64) as int] == spec_zigzag_8x8()[k]);
        }
    }
    assert(o1 =~= o2);
}

/// An order that sorts the scan positions by non-zero counts is a valid
/// custom order: a permutation of the zigzag with DC first.
pub proof fn lemma_count_order_valid(o: Seq<usize>, counts: Seq<u64>)
    requires
        spec_is_count_order(o, counts),
    ensures
        spec_valid_order_8x8(o),
{
    lemma_zigzag_facts();
    let z = spec_zigzag_8x8();
    assert forall|s: int| 1 <= s < 64 implies exists|k: int|
        1 <= k < 64 && spec_rank(counts, k, 64) == s - 1 && #[trigger] o[s] == z[k] by {
        lemma_ranks_cover(counts, s - 1);
        let k = choose|k: int| 1 <= k < 64 && #[trigger] spec_rank(counts, k, 64) == s - 1;
        assert(o[1 + spec_rank(counts, k, 64) as int] == z[k]);
    }
    assert forall|i: int| 0 <= i < 64 implies spec_contains(z, #[trigger] o[i]) by {
        if i == 0 {
            assert(z[0] == o[0]);
        } else {
            let k = choose|k: int| 1 <= k < 64 && spec_rank(counts, k, 64) == i - 1 && #[trigger] o[i] == z[k];
            assert(z[k] == o[i]);
        }
    }
    assert forall|i: int, j: int| 0 <= i < 64 && 0 <= j < 64 && i != j implies o[i] != o[j] by {
        if i > 0 && j > 0 {
            let ki = choose|k: int| 1 <= k < 64 && spec_rank(counts, k, 64) == i - 1 && #[trigger] o[i] == z[k];
            let kj = choose|k: int| 1 <= k < 64 && spec_rank(counts, k, 64) == j - 1 && #[trigger] o[j] == z[k];
            assert(ki != kj);
        } else if i == 0 {
            let kj = choose|k: int| 1 <= k < 64 && spec_rank(counts, k, 64) == j - 1 && #[trigger] o[j] == z[k];
            assert(o[0] == z[0]);
        } else {
            let ki = choose|k: int| 1 <= k < 64 && spec_rank(counts, k, 64) == i - 1 && #[trigger] o[i] == z[k];
            assert(o[0] == z[0]);
        }
    }
}

/// At most one order is the optimal order of a channel.
pub proof fn lemma_channel_order_unique(
    o1: Seq<usize>,
    o2: Seq<usize>,
    ac: Seq<i32>,
    map: Seq<u8>,
    full_bw: int,
    x0: int,
    y0: int,
    rw: int,
    rh: int,
)
    requires
        spec_channel_order_ok(o1, ac, map, full_bw, x0, y0, rw, rh),
        spec_channel_order_ok(o2, ac, map, full_bw, x0, y0, rw, rh),
    ensures
        o1 == o2,
{
    if spec_region_hits(ac, map, full_bw, x0, y0, rw, rh, -1) != 0 {
        lemma_count_order_unique(o1, o2, spec_nonzero_counts(ac, map, full_bw, x0, y0, rw, rh));
    }
}

/// The optimal order of a channel is a valid custom order.
pub proof fn lemma_optimal_order_valid(
    ac: Seq<i32>,
    map: Seq<u8>,
    full_bw: int,
    x0: int,
    y0: int,
    rw: int,
    rh: int,
    o: Seq<usize>,
)
    requires
        spec_channel_order_ok(o, ac, map, full_bw, x0, y0, rw, rh),
    ensures
        spec_valid_order_8x8(o),
{
    lemma_zigzag_facts();
    if spec_region_hits(ac, map, full_bw, x0, y0, rw, rh, -1) != 0 {
        lemma_count_order_valid(o, spec_nonzero_counts(ac, map, full_bw, x0, y0, rw, rh));
    } else {
        assert forall|i: int| 0 <= i < 64 implies spec_contains(spec_zigzag_8x8(), #[trigger] o[i]) by {
            assert(spec_zigzag_8x8()[i] == o[i]);
        }
    }
}

/// `order` is a valid custom 8x8 scan order: a permutation of the zigzag
/// that keeps the DC coefficient first.
pub open spec fn spec_valid_order_8x8(order: Seq<usize>) -> bool {
    &&& order.len() == 64
    &&& spec_distinct(order)
    &&& forall|i: int| 0 <= i < 64 ==> spec_contains(spec_zigzag_8x8(), #[trigger] order[i])
    &&& order[0] == 0
}

/// Tokens (context, value) that code one Lehmer code: its trimmed length
/// first, then each digit in the context of the digit before it.
pub open spec fn spec_order_tokens(codes: Seq<u32>, end: nat) -> Seq<(usize, u32)> {
    seq![(spec_permutation_context(64) as usize, end as u32)] + Seq::new(
        end,
        |i: int|
            (
                spec_permutation_context(
                    if i == 0 {
                        0
                    } else {
                        codes[i - 1] as nat
                    },
                ) as usize,
                codes[i],
            ),
    )
}

/// Lehmer code of a custom 8x8 order relative to the zigzag, past the DC.
pub open spec fn spec_order_lehmer(order: Seq<usize>) -> Seq<u32> {
    spec_lehmer(spec_relative_perm(order, spec_zigzag_8x8(), 1))
}

/// The zigzag is a permutation of the 64 coefficient positions with DC first.
pub proof fn lemma_zigzag_facts()
    ensures
        spec_distinct(spec_zigzag_8x8()),
        forall|i: int| 0 <= i < 64 ==> #[trigger] spec_zigzag_8x8()[i] < 64,
        spec_zigzag_8x8().len() == 64,
        spec_zigzag_8x8()[0] == 0,
{
    let z = spec_zigzag_8x8();
    assert(z.len() == 64);
    assert forall|i: int| 0 <= i < 64 implies #[trigger] z[i] < 64 by {}
    let inv = seq![
        0usize, 1, 5, 6, 14, 15, 27, 28, 2, 4, 7, 13, 16, 26, 29, 42, 3, 8, 12, 17, 25, 30, 41, 43, 9,
        11, 18, 24, 31, 40, 44, 53, 10, 19, 23, 32, 39, 45, 52, 54, 20, 22, 33, 38, 46, 51, 55, 60,
        21, 34, 37, 47, 50, 56, 59, 61, 35, 36, 48, 49, 57, 58, 62, 63,
    ];
    assert forall|i: int| 0 <= i < 64 implies #[trigger] inv[z[i] as int] == i by {}
    assert forall|i: int, j: int| 0 <= i < 64 && 0 <= j < 64 && i != j implies z[i] != z[j] by {
        if z[i] == z[j] {
            assert(inv[z[i] as int] == i);
            assert(inv[z[j] as int] == j);
        }
    }
}

/// The permutation tokens of the three custom 8x8 orders (Y, X, B): per
/// channel, the trimmed length of its Lehmer code and then the code's digits.
pub fn permutation_tokens(orders: &[[usize; 64]; 3]) -> (r: Vec<(usize, u32)>)
    requires
        forall|c: int| 0 <= c < 3 ==> spec_valid_order_8x8(#[trigger] orders[c]@),
    ensures
        r@ == spec_order_tokens(
            spec_order_lehmer(orders[0]@),
            spec_trimmed_len(spec_order_lehmer(orders[0]@)),
        ) + spec_order_tokens(
            spec_order_lehmer(orders[1]@),
            spec_trimmed_len(spec_order_lehmer(orders[1]@)),
        ) + spec_order_tokens(
            spec_order_lehmer(orders[2]@),
            spec_trimmed_len(spec_order_lehmer(orders[2]@)),
        ),
{
    let natural = natural_coeff_order_8x8();
    proof {
        lemma_zigzag_facts();
    }
    let mut tokens: Vec<(usize, u32)> = Vec::new();
    let mut c: usize = 0;
    let ghost mut done: Seq<(usize, u32)> = Seq::empty();
    while c < 3
        invariant
            c <= 3,
            natural@ == spec_zigzag_8x8(),
            spec_distinct(spec_zigzag_8x8()),
            forall|i: int| 0 <= i < 64 ==> #[trigger] spec_zigzag_8x8()[i] < 64,
            spec_zigzag_8x8()[0] == 0,
            forall|c: int| 0 <= c < 3 ==> spec_valid_order_8x8(#[trigger] orders[c]@),
            tokens@ == if c == 0 {
                Seq::<(usize, u32)>::empty()
            } else if c == 1 {
                spec_order_tokens(
                    spec_order_lehmer(orders[0]@),
                    spec_trimmed_len(spec_order_lehmer(orders[0]@)),
                )
            } else if c == 2 {
                spec_order_tokens(
                    spec_order_lehmer(orders[0]@),
                    spec_trimmed_len(spec_order_lehmer(orders[0]@)),
                ) + spec_order_tokens(
                    spec_order_lehmer(orders[1]@),
                    spec_trimmed_len(spec_order_lehmer(orders[1]@)),
                )
            } else {
                spec_order_tokens(
                    spec_order_lehmer(orders[0]@),
                    spec_trimmed_len(spec_order_lehmer(orders[0]@)),
                ) + spec_order_tokens(
                    spec_order_lehmer(orders[1]@),
                    spec_trimmed_len(spec_order_lehmer(orders[1]@)),
                ) + spec_order_tokens(
                    spec_order_lehmer(orders[2]@),
                    spec_trimmed_len(spec_order_lehmer(orders[2]@)),
                )
            },
        decreases 3 - c,
    {
        let order: &[usize; 64] = &orders[c];
        let ghost o = order@;
        assert(spec_valid_order_8x8(o));
        proof {
            assert forall|i: int, j: int| 1 <= i < 64 && 0 <= j < 1 implies o[i] != spec_zigzag_8x8()[j] by {
                assert(o[0] == 0);
            }
        }
        let (codes, end) = compute_lehmer_code(order.as_slice(), natural.as_slice(), 1);
        let ghost start = tokens@;
        proof { lemma_trimmed_len_bound(codes@); }
        tokens.push((permutation_context(64), end as u32));
        let mut prev_val: u32 = 0;
        let mut i: usize = 0;
        while i < end
            invariant
                i <= end,
                end <= codes.len(),
                end == spec_trimmed_len(codes@),
                tokens@ == start + spec_order_tokens(codes@, end as nat).subrange(0, i + 1),
                prev_val == if i == 0 {
                    0
                } else {
                    codes@[i - 1]
                },
            decreases end - i,
        {
            let code = codes[i];
            tokens.push((permutation_context(prev_val), code));
            prev_val = code;
            i = i + 1;
        }
        proof {
            assert(spec_order_tokens(codes@, end as nat).subrange(0, end + 1) =~= spec_order_tokens(
                codes@,
                end as nat,
            ));
            assert(codes@ == spec_order_lehmer(orders[c as int]@));
        }
        c = c + 1;
    }
    tokens
}


/// Decodes a Lehmer code: each digit picks (and takes away) that entry of
/// the values still available.
pub open spec fn spec_lehmer_decode(codes: Seq<u32>, avail: Seq<int>) -> Seq<int>
    decreases codes.len(),
{
    if codes.len() == 0 {
        Seq::empty()
    } else {
        let c = codes[0] as int;
        seq![avail[c]] + spec_lehmer_decode(codes.drop_first(), avail.remove(c))
    }
}

/// Number of entries of `s` below `v`.
pub open spec fn spec_count_below(s: Seq<int>, v: int) -> nat
    decreases s.len(),
{
    if s.len() == 0 {
        0
    } else {
        spec_count_below(s.drop_last(), v) + if s.last() < v {
            1nat
        } else {
            0nat
        }
    }
}

/// `s` is strictly increasing.
pub open spec fn spec_increasing(s: Seq<int>) -> bool {
    forall|i: int, j: int| 0 <= i < j < s.len() ==> s[i] < s[j]
}

proof fn lemma_count_below_concat(x: Seq<int>, y: Seq<int>, v: int)
    ensures
        spec_count_below(x + y, v) == spec_count_below(x, v) + spec_count_below(y, v),
    decreases y.len(),
{
    if y.len() > 0 {
        assert((x + y).drop_last() =~= x + y.drop_last());
        lemma_count_below_concat(x, y.drop_last(), v);
    } else {
        assert(x + y =~= x);
    }
}

proof fn lemma_count_below_len(s: Seq<int>, v: int)
    ensures
        spec_count_below(s, v) <= s.len(),
    decreases s.len(),
{
    if s.len() > 0 {
        lemma_count_below_len(s.drop_last(), v);
    }
}

proof fn lemma_count_below_sorted(s: Seq<int>, v: int)
    requires
        spec_increasing(s),
    ensures
        spec_count_below(s, v) <= s.len(),
        forall|j: int| 0 <= j < spec_count_below(s, v) ==> #[trigger] s[j] < v,
        forall|j: int| spec_count_below(s, v) <= j < s.len() ==> #[trigger] s[j] >= v,
    decreases s.len(),
{
    if s.len() > 0 {
        let t = s.drop_last();
        assert(spec_increasing(t));
        lemma_count_below_sorted(t, v);
        let k = spec_count_below(t, v);
        if s.last() < v {
            if k < t.len() {
                assert(t[k as int] >= v);
                assert(t[k as int] == s[k as int]);
                assert(s[k as int] < s[s.len() - 1]);
            }
            assert(k == t.len());
            assert forall|j: int| 0 <= j < spec_count_below(s, v) implies #[trigger] s[j] < v by {
                if j < t.len() {
                    assert(s[j] == t[j]);
                }
            }
        } else {
            assert forall|j: int| 0 <= j < spec_count_below(s, v) implies #[trigger] s[j] < v by {
                assert(s[j] == t[j]);
            }
            assert forall|j: int| spec_count_below(s, v) <= j < s.len() implies #[trigger] s[j] >= v by {
                if j < t.len() {
                    assert(s[j] == t[j]);
                }
            }
        }
    }
}

proof fn lemma_count_below_skip_value(s: Seq<int>, v: int)
    requires
        forall|j: int| 0 <= j < s.len() ==> #[trigger] s[j] != v,
    ensures
        spec_count_below(s, v + 1) == spec_count_below(s, v),
    decreases s.len(),
{
    if s.len() > 0 {
        lemma_count_below_skip_value(s.drop_last(), v);
    }
}

proof fn lemma_smaller_after_count(a: Seq<int>, i: int, j: int)
    requires
        0 <= i < j <= a.len(),
    ensures
        spec_smaller_after(a, i, j) == spec_count_below(a.subrange(i + 1, j), a[i]),
    decreases j - i,
{
    if j > i + 1 {
        lemma_smaller_after_count(a, i, j - 1);
        assert(a.subrange(i + 1, j).drop_last() =~= a.subrange(i + 1, j - 1));
    } else {
        assert(a.subrange(i + 1, j) =~= Seq::<int>::empty());
    }
}

proof fn lemma_count_below_set(s: Seq<int>, v: int)
    requires
        s.no_duplicates(),
    ensures
        spec_count_below(s, v) == s.to_set().filter(|x: int| x < v).len(),
        s.to_set().filter(|x: int| x < v).finite(),
    decreases s.len(),
{
    broadcast use vstd::set::group_set_axioms;
    broadcast use vstd::seq_lib::seq_to_set_is_finite;
    if s.len() == 0 {
        assert(s.to_set().filter(|x: int| x < v) =~= Set::<int>::empty());
    } else {
        let t = s.drop_last();
        assert(t.no_duplicates());
        lemma_count_below_set(t, v);
        assert(s =~= t.push(s.last()));
        t.lemma_push_to_set_commute(s.last());
        assert(s.to_set() =~= t.to_set().insert(s.last()));
        assert(!t.to_set().contains(s.last())) by {
            if t.to_set().contains(s.last()) {
                let j = choose|j: int| 0 <= j < t.len() && t[j] == s.last();
                assert(s[j] == s[s.len() - 1]);
            }
        }
        let ft = t.to_set().filter(|x: int| x < v);
        if s.last() < v {
            assert(s.to_set().filter(|x: int| x < v) =~= ft.insert(s.last()));
        } else {
            assert(s.to_set().filter(|x: int| x < v) =~= ft);
        }
    }
}

proof fn lemma_perm_counts(a: Seq<int>, v: int)
    requires
        a.no_duplicates(),
        forall|i: int| 0 <= i < a.len() ==> 0 <= #[trigger] a[i] < a.len(),
    ensures
        spec_count_below(Seq::new(a.len(), |i: int| i), v) == spec_count_below(a, v),
{
    broadcast use vstd::set::group_set_axioms;
    broadcast use vstd::seq_lib::seq_to_set_is_finite;
    let m = a.len() as int;
    let r = Seq::new(a.len(), |i: int| i);
    assert(r.no_duplicates());
    assert(r.to_set() =~= set_int_range(0, m)) by {
        assert forall|x: int| set_int_range(0, m).contains(x) implies r.to_set().contains(x) by {
            assert(r[x] == x);
        }
    }
    lemma_int_range(0, m);
    a.unique_seq_to_set();
    assert(a.to_set().subset_of(set_int_range(0, m)));
    lemma_len_subset(a.to_set(), set_int_range(0, m));
    lemma_subset_equality(a.to_set(), set_int_range(0, m));
    lemma_count_below_set(a, v);
    lemma_count_below_set(r, v);
    assert(a.to_set() =~= r.to_set());
}

proof fn lemma_decode_suffix(a: Seq<int>, i: int, avail: Seq<int>)
    requires
        a.no_duplicates(),
        0 <= i <= a.len(),
        a.len() <= u32::MAX,
        spec_increasing(avail),
        avail.len() == a.len() - i,
        forall|v: int| #[trigger] spec_count_below(avail, v) == spec_count_below(a.subrange(i, a.len() as int), v),
    ensures
        spec_lehmer_decode(spec_lehmer(a).subrange(i, a.len() as int), avail) == a.subrange(i, a.len() as int),
    decreases a.len() - i,
{
    let m = a.len() as int;
    let codes = spec_lehmer(a).subrange(i, m);
    if i == m {
        assert(codes.len() == 0);
        assert(a.subrange(i, m) =~= Seq::<int>::empty());
    } else {
        let t = a.subrange(i, m);
        let t1 = a.subrange(i + 1, m);
        assert(t =~= seq![a[i]] + t1);
        lemma_smaller_after_count(a, i, m);
        let c = spec_smaller_after(a, i, m);
        lemma_count_below_len(t1, a[i]);
        assert(codes[0] as int == c);
        assert forall|j: int| 0 <= j < t1.len() implies #[trigger] t1[j] != a[i] by {
            assert(t1[j] == a[i + 1 + j]);
        }
        lemma_count_below_skip_value(t1, a[i]);
        lemma_count_below_concat(seq![a[i]], t1, a[i]);
        lemma_count_below_concat(seq![a[i]], t1, a[i] + 1);
        let single = seq![a[i]];
        assert(single.drop_last() =~= Seq::<int>::empty());
        assert(single.last() == a[i]);
        assert(spec_count_below(Seq::<int>::empty(), a[i]) == 0);
        assert(spec_count_below(Seq::<int>::empty(), a[i] + 1) == 0);
        assert(spec_count_below(single, a[i]) == 0);
        assert(spec_count_below(single, a[i] + 1) == 1);
        assert(spec_count_below(avail, a[i]) == c);
        assert(spec_count_below(avail, a[i] + 1) == c + 1);
        lemma_count_below_sorted(avail, a[i]);
        lemma_count_below_sorted(avail, a[i] + 1);
        assert(avail[c as int] == a[i]);
        let avail2 = avail.remove(c as int);
        assert(spec_increasing(avail2)) by {
            assert forall|p: int, q: int| 0 <= p < q < avail2.len() implies avail2[p] < avail2[q] by {
                let pp = if p < c { p } else { p + 1 };
                let qq = if q < c { q } else { q + 1 };
                assert(avail2[p] == avail[pp]);
                assert(avail2[q] == avail[qq]);
            }
        }
        assert forall|v: int| #[trigger] spec_count_below(avail2, v) == spec_count_below(a.subrange(i + 1, m), v) by {
            let left = avail.subrange(0, c as int);
            let right = avail.subrange(c as int + 1, avail.len() as int);
            assert(avail2 =~= left + right);
            assert(avail =~= left + (seq![avail[c as int]] + right));
            lemma_count_below_concat(left, right, v);
            lemma_count_below_concat(left, seq![avail[c as int]] + right, v);
            lemma_count_below_concat(seq![avail[c as int]], right, v);
            lemma_count_below_concat(seq![a[i]], t1, v);
            assert(seq![avail[c as int]].drop_last() =~= Seq::<int>::empty());
            assert(spec_count_below(avail, v) == spec_count_below(t, v));
        }
        lemma_decode_suffix(a, i + 1, avail2);
        assert(codes.drop_first() =~= spec_lehmer(a).subrange(i + 1, m));
        assert(spec_lehmer_decode(codes, avail) =~= seq![avail[c as int]] + spec_lehmer_decode(
            codes.drop_first(),
            avail2,
        ));
    }
}

/// Decoding the Lehmer code of a permutation of `0..n`, starting from the
/// values `0..n` in order, gives the permutation back.
pub proof fn lemma_lehmer_decodes(a: Seq<int>)
    requires
        a.len() <= u32::MAX,
        a.no_duplicates(),
        forall|i: int| 0 <= i < a.len() ==> 0 <= #[trigger] a[i] < a.len(),
    ensures
        spec_lehmer_decode(spec_lehmer(a), Seq::new(a.len(), |i: int| i)) == a,
{
    let r = Seq::new(a.len(), |i: int| i);
    assert forall|v: int| #[trigger] spec_count_below(r, v) == spec_count_below(a.subrange(0, a.len() as int), v) by {
        lemma_perm_counts(a, v);
        assert(a.subrange(0, a.len() as int) =~= a);
    }
    lemma_decode_suffix(a, 0, r);
    assert(spec_lehmer(a).subrange(0, a.len() as int) =~= spec_lehmer(a));
    assert(a.subrange(0, a.len() as int) =~= a);
}

/// What `compute_lehmer_code` returns lets a decoder rebuild the custom
/// order: decoding the code from the positions `0..n - skip` and reading
/// `natural` at those positions (shifted by `skip`) gives `custom` from
/// position `skip` on.
pub proof fn lemma_lehmer_code_rebuilds_order(custom: Seq<usize>, natural: Seq<usize>, skip: nat)
    requires
        custom.len() == natural.len(),
        natural.len() <= 64,
        skip <= natural.len(),
        spec_distinct(natural),
        spec_distinct(custom),
        forall|i: int| 0 <= i < custom.len() ==> spec_contains(natural, #[trigger] custom[i]),
        forall|i: int, j: int| skip <= i < custom.len() && 0 <= j < skip ==> custom[i] != natural[j],
    ensures
        ({
            let a = spec_relative_perm(custom, natural, skip);
            let d = spec_lehmer_decode(spec_lehmer(a), Seq::new(a.len(), |i: int| i));
            &&& d.len() == custom.len() - skip
            &&& forall|i: int| 0 <= i < d.len() ==> natural[skip + #[trigger] d[i]] == custom[skip + i]
        }),
{
    let a = spec_relative_perm(custom, natural, skip);
    let n = natural.len() as int;
    let m = a.len() as int;
    assert forall|i: int| 0 <= i < m implies {
        &&& 0 <= #[trigger] a[i] < m
        &&& natural[skip + a[i]] == custom[skip + i]
    } by {
        assert(spec_contains(natural, custom[i + skip]));
        let p = spec_position_of(natural, custom[i + skip]);
        assert(0 <= p < n && natural[p] == custom[i + skip]);
        if p < skip {
            assert(custom[i + skip] != natural[p]);
        }
    }
    assert(a.no_duplicates()) by {
        assert forall|i: int, j: int| 0 <= i < m && 0 <= j < m && i != j implies a[i] != a[j] by {
            if a[i] == a[j] {
                assert(natural[skip + a[i]] == custom[skip + i]);
                assert(natural[skip + a[j]] == custom[skip + j]);
            }
        }
    }
    lemma_lehmer_decodes(a);
}

} // verus!

use vstd::prelude::*;

verus! {

/// Alpha value after lossy quantization with step `step`: fully transparent and
/// fully opaque values are kept; others are rounded to the nearest multiple of
/// `step` (halves rounding up, using `step / 2`) and clamped to 1..=254.
pub open spec fn spec_quantize_alpha(a: u8, step: u16) -> u8 {
    if step <= 1 || a == 0 || a == 255 {
        a
    } else {
        let q: int = ((a as int + (step / 2) as int) / (step as int)) * (step as int);
        if q < 1 {
            1
        } else if q > 254 {
            254
        } else {
            q as u8
        }
    }
}

/// Quantizes every alpha value with `spec_quantize_alpha`.
pub fn quantize_alpha_for_lossy_step(alpha: &[u8], step: u16) -> (r: Vec<u8>)
    ensures
        r@.len() == alpha@.len(),
        forall|i: int| 0 <= i < alpha@.len() ==> #[trigger] r@[i] == spec_quantize_alpha(alpha@[i], step),
{
    let mut out: Vec<u8> = Vec::new();
    let mut i: usize = 0;
    while i < alpha.len()
        invariant
            i <= alpha@.len(),
            out@.len() == i,
            forall|j: int| 0 <= j < i ==> #[trigger] out@[j] == spec_quantize_alpha(alpha@[j], step),
        decreases alpha@.len() - i,
    {
        let a = alpha[i];
        let v = if step <= 1 || a == 0 || a == 255 {
            a
        } else {
            let aa = a as u16;
            let h = step / 2;
            proof {
                assert(((aa + h) as int / step as int) * (step as int) <= aa + h) by (nonlinear_arith)
                    requires
                        step > 1,
                ;
            }
            let q = ((aa + h) / step) * step;
            if q < 1 {
                1
            } else if q > 254 {
                254
            } else {
                q as u8
            }
        };
        out.push(v);
        i = i + 1;
    }
    out
}

/// Whether pixel (`xx`, `yy`) lies in 8x8 block (`bx`, `by`) of a `width` x `height` image.
pub open spec fn spec_in_block(width: int, height: int, bx: int, by: int, xx: int, yy: int) -> bool {
    &&& by * 8 <= yy < by * 8 + 8
    &&& yy < height
    &&& bx * 8 <= xx < bx * 8 + 8
    &&& xx < width
}

/// Alpha of pixel (`xx`, `yy`) is not zero.
pub open spec fn spec_visible(alpha: Seq<u8>, width: int, xx: int, yy: int) -> bool {
    alpha[yy * width + xx] > 0
}

/// Alpha of pixel (`xx`, `yy`) is below full opacity.
pub open spec fn spec_non_opaque(alpha: Seq<u8>, width: int, xx: int, yy: int) -> bool {
    alpha[yy * width + xx] < 255
}

/// A block mixes visible and non-opaque pixels.
pub open spec fn spec_block_mixed(alpha: Seq<u8>, width: int, height: int, bx: int, by: int) -> bool {
    &&& exists|xx: int, yy: int|
        spec_in_block(width, height, bx, by, xx, yy) && #[trigger] spec_visible(alpha, width, xx, yy)
    &&& exists|xx: int, yy: int|
        spec_in_block(width, height, bx, by, xx, yy) && #[trigger] spec_non_opaque(
            alpha,
            width,
            xx,
            yy,
        )
}

/// Quant value of a block after the alpha-edge boost: tripled (at most 255)
/// when the block mixes visible and non-opaque pixels.
pub open spec fn spec_boosted_quant(
    q: u8,
    alpha: Seq<u8>,
    width: int,
    height: int,
    bx: int,
    by: int,
) -> u8 {
    if spec_block_mixed(alpha, width, height, bx, by) {
        if 3 * q > 255 {
            255
        } else {
            (3 * q) as u8
        }
    } else {
        q
    }
}

fn block_alpha_flags(alpha: &[u8], width: usize, height: usize, bx: usize, by: usize) -> (r: (
    bool,
    bool,
))
    requires
        alpha@.len() == width * height,
        bx * 8 + 8 <= usize::MAX,
        by * 8 + 8 <= usize::MAX,
    ensures
        r.0 == exists|xx: int, yy: int|
            spec_in_block(width as int, height as int, bx as int, by as int, xx, yy)
                && #[trigger] spec_visible(alpha@, width as int, xx, yy),
        r.1 == exists|xx: int, yy: int|
            spec_in_block(width as int, height as int, bx as int, by as int, xx, yy)
                && #[trigger] spec_non_opaque(alpha@, width as int, xx, yy),
{
    let n = alpha.len();
    let mut has_nonzero = false;
    let mut has_nonopaque = false;
    let y0 = by * 8;
    let x0 = bx * 8;
    let y_end = if y0 + 8 < height {
        y0 + 8
    } else {
        height
    };
    let x_end = if x0 + 8 < width {
        x0 + 8
    } else {
        width
    };
    let ghost w = width as int;
    let ghost h = height as int;
    let mut yy = y0;
    while yy < y_end
        invariant
            y0 == by * 8,
            x0 == bx * 8,
            y_end <= height,
            y_end <= y0 + 8,
            y_end == y0 + 8 || y_end == height,
            x_end <= width,
            x_end <= x0 + 8,
            x_end == x0 + 8 || x_end == width,
            y0 <= yy,
            yy <= y_end || yy == y0,
            alpha@.len() == width * height,
            n == alpha@.len(),
            w == width as int,
            has_nonzero == exists|xx: int, y: int|
                y0 <= y < yy && x0 <= xx < x_end && #[trigger] spec_visible(alpha@, w, xx, y),
            has_nonopaque == exists|xx: int, y: int|
                y0 <= y < yy && x0 <= xx < x_end && #[trigger] spec_non_opaque(alpha@, w, xx, y),
        decreases y_end - yy,
    {
        proof {
            assert(yy * width <= width * height) by (nonlinear_arith)
                requires
                    yy < height,
            ;
        }
        let row = yy * width;
        let mut xx = x0;
        while xx < x_end
            invariant
                y0 <= yy < y_end <= height,
                x_end <= width,
                row == yy * width,
                x0 <= xx,
                xx <= x_end || xx == x0,
                alpha@.len() == width * height,
                n == alpha@.len(),
                w == width as int,
                has_nonzero == ((exists|x: int, y: int|
                    y0 <= y < yy && x0 <= x < x_end && #[trigger] spec_visible(alpha@, w, x, y))
                    || (exists|x: int| x0 <= x < xx && #[trigger] spec_visible(alpha@, w, x, yy as int))),
                has_nonopaque == ((exists|x: int, y: int|
                    y0 <= y < yy && x0 <= x < x_end && #[trigger] spec_non_opaque(alpha@, w, x, y))
                    || (exists|x: int|
                    x0 <= x < xx && #[trigger] spec_non_opaque(alpha@, w, x, yy as int))),
            decreases x_end - xx,
        {
            proof {
                assert(yy * width + xx < width * height) by (nonlinear_arith)
                    requires
                        yy < height,
                        xx < width,
                ;
            }
            let a = alpha[row + xx];
            if a > 0 {
                has_nonzero = true;
            }
            if a < 255 {
                has_nonopaque = true;
            }
            proof {
                assert(spec_visible(alpha@, w, xx as int, yy as int) == (a > 0));
                assert(spec_non_opaque(alpha@, w, xx as int, yy as int) == (a < 255));
            }
            xx = xx + 1;
        }
        proof {
            let ghost yi = yy as int;
            if has_nonzero {
                if exists|x: int| x0 <= x < x_end && #[trigger] spec_visible(alpha@, w, x, yi) {
                    let x = choose|x: int| x0 <= x < x_end && #[trigger] spec_visible(alpha@, w, x, yi);
                    assert(y0 <= yi < yi + 1 && x0 <= x < x_end && spec_visible(alpha@, w, x, yi));
                } else {
                    let (x, y) = choose|x: int, y: int|
                        y0 <= y < yi && x0 <= x < x_end && #[trigger] spec_visible(alpha@, w, x, y);
                    assert(y0 <= y < yi + 1 && x0 <= x < x_end && spec_visible(alpha@, w, x, y));
                }
            }
            assert forall|x: int, y: int|
                y0 <= y < yi + 1 && x0 <= x < x_end && #[trigger] spec_visible(alpha@, w, x, y) implies has_nonzero by {
                if y == yi {
                    assert(x0 <= x < x_end && spec_visible(alpha@, w, x, yi));
                } else {
                    assert(y0 <= y < yi && x0 <= x < x_end && spec_visible(alpha@, w, x, y));
                }
            }
            if has_nonopaque {
                if exists|x: int| x0 <= x < x_end && #[trigger] spec_non_opaque(alpha@, w, x, yi) {
                    let x = choose|x: int| x0 <= x < x_end && #[trigger] spec_non_opaque(alpha@, w, x, yi);
                    assert(y0 <= yi < yi + 1 && x0 <= x < x_end && spec_non_opaque(alpha@, w, x, yi));
                } else {
                    let (x, y) = choose|x: int, y: int|
                        y0 <= y < yi && x0 <= x < x_end && #[trigger] spec_non_opaque(alpha@, w, x, y);
                    assert(y0 <= y < yi + 1 && x0 <= x < x_end && spec_non_opaque(alpha@, w, x, y));
                }
            }
            assert forall|x: int, y: int|
                y0 <= y < yi + 1 && x0 <= x < x_end && #[trigger] spec_non_opaque(alpha@, w, x, y) implies has_nonopaque by {
                if y == yi {
                    assert(x0 <= x < x_end && spec_non_opaque(alpha@, w, x, yi));
                } else {
                    assert(y0 <= y < yi && x0 <= x < x_end && spec_non_opaque(alpha@, w, x, y));
                }
            }
        }
        yy = yy + 1;
    }
    proof {
        assert forall|xx: int, yy: int|
            spec_in_block(w, h, bx as int, by as int, xx, yy) <==> (y0 <= yy < y_end && x0
            <= xx < x_end) by {}
        if has_nonzero {
            let (x, y) = choose|x: int, y: int|
                y0 <= y < yy && x0 <= x < x_end && #[trigger] spec_visible(alpha@, w, x, y);
            assert(spec_in_block(w, h, bx as int, by as int, x, y));
        }
        if has_nonopaque {
            let (x, y) = choose|x: int, y: int|
                y0 <= y < yy && x0 <= x < x_end && #[trigger] spec_non_opaque(alpha@, w, x, y);
            assert(spec_in_block(w, h, bx as int, by as int, x, y));
        }
    }
    (has_nonzero, has_nonopaque)
}

/// Raises the quant value (finer quantization) of every block that mixes
/// visible and non-opaque pixels, tripling it with a ceiling of 255.
pub fn boost_quant_on_alpha_edges(
    raw_quant_map: &mut [u8],
    alpha: &[u8],
    width: usize,
    height: usize,
    bw: usize,
    bh: usize,
)
    requires
        old(raw_quant_map)@.len() == bw * bh,
        alpha@.len() == width * height,
        bw * 8 + 8 <= usize::MAX,
        bh * 8 + 8 <= usize::MAX,
    ensures
        final(raw_quant_map)@.len() == bw * bh,
        forall|by: int, bx: int|
            0 <= by < bh && 0 <= bx < bw ==> #[trigger] final(raw_quant_map)@[by * bw + bx]
                == spec_boosted_quant(
                old(raw_quant_map)@[by * bw + bx],
                alpha@,
                width as int,
                height as int,
                bx,
                by,
            ),
{
    let ghost old_map = raw_quant_map@;
    let map_len = raw_quant_map.len();
    let mut by: usize = 0;
    while by < bh
        invariant
            by <= bh,
            raw_quant_map@.len() == bw * bh,
            map_len == bw * bh,
            old_map.len() == bw * bh,
            alpha@.len() == width * height,
            bw * 8 + 8 <= usize::MAX,
            bh * 8 + 8 <= usize::MAX,
            forall|i: int| by * bw <= i < bw * bh ==> #[trigger] raw_quant_map@[i] == old_map[i],
            forall|y: int, x: int|
                0 <= y < by && 0 <= x < bw ==> #[trigger] raw_quant_map@[y * bw + x]
                    == spec_boosted_quant(old_map[y * bw + x], alpha@, width as int, height as int, x, y),
        decreases bh - by,
    {
        let mut bx: usize = 0;
        while bx < bw
            invariant
                by < bh,
                bx <= bw,
                raw_quant_map@.len() == bw * bh,
                map_len == bw * bh,
                old_map.len() == bw * bh,
                alpha@.len() == width * height,
                bw * 8 + 8 <= usize::MAX,
                bh * 8 + 8 <= usize::MAX,
                forall|i: int| by * bw + bx <= i < bw * bh ==> #[trigger] raw_quant_map@[i] == old_map[i],
                forall|y: int, x: int|
                    ((0 <= y < by && 0 <= x < bw) || (y == by && 0 <= x < bx))
                        ==> #[trigger] raw_quant_map@[y * bw + x] == spec_boosted_quant(
                        old_map[y * bw + x],
                        alpha@,
                        width as int,
                        height as int,
                        x,
                        y,
                    ),
            decreases bw - bx,
        {
            proof {
                assert(by * bw + bx < bw * bh) by (nonlinear_arith)
                    requires
                        by < bh,
                        bx < bw,
                ;
                assert(by * 8 + 8 <= bh * 8 + 8) by (nonlinear_arith)
                    requires
                        by < bh,
                ;
                assert(bx * 8 + 8 <= bw * 8 + 8) by (nonlinear_arith)
                    requires
                        bx < bw,
                ;
            }
            let (has_nonzero, has_nonopaque) = block_alpha_flags(alpha, width, height, bx, by);
            proof {
                assert(by * bw + bx < bw * bh) by (nonlinear_arith)
                    requires
                        by < bh,
                        bx < bw,
                ;
            }
            let idx = by * bw + bx;
            if has_nonzero && has_nonopaque {
                let q = raw_quant_map[idx] as u32;
                let boosted = if 3 * q > 255 {
                    255u8
                } else {
                    (3 * q) as u8
                };
                raw_quant_map[idx] = boosted;
            }
            proof {
                assert forall|y: int, x: int|
                    ((0 <= y < by && 0 <= x < bw) || (y == by && 0 <= x < bx + 1)) implies
                    #[trigger] raw_quant_map@[y * bw + x] == spec_boosted_quant(
                        old_map[y * bw + x],
                        alpha@,
                        width as int,
                        height as int,
                        x,
                        y,
                    ) by {
                    if y == by && x == bx {
                    } else {
                        assert(y * bw + x < by * bw + bx) by (nonlinear_arith)
                            requires
                                (0 <= y < by && 0 <= x < bw) || (y == by && 0 <= x < bx),
                        ;
                    }
                }
                assert forall|i: int| by * bw + bx + 1 <= i < bw * bh implies #[trigger] raw_quant_map@[i]
                    == old_map[i] by {}
            }
            bx = bx + 1;
        }
        proof {
            assert(by * bw + bw == (by + 1) * bw) by (nonlinear_arith);
        }
        by = by + 1;
    }
}

} // verus!

use vstd::prelude::*;
use crate::coeff_order::{
    compute_optimal_coeff_orders_8x8, lemma_optimal_order_valid, lemma_zigzag_facts,
    natural_coeff_order_8x8, permutation_tokens, spec_contains, spec_optimal_order,
    spec_order_lehmer, spec_order_tokens, spec_region_readable, spec_trimmed_len,
    spec_zigzag_8x8,
};
use crate::error::Error;
use crate::header::{
    global_scale_coder, push_view, quant_lf_coder, spec_field_views,
    spec_global_scale_coder, spec_quant_lf_coder, FieldView, HeaderField,
};
use crate::tokenize::{
    lemma_region_no_min_any_orders, spec_hf_region, spec_region_no_min, spec_tokenize_region,
    tokenize_hf_region, AcToken, HfRegion, NON_ZERO_BUCKETS,
    ZERO_DENSITY_CONTEXT_COUNT,
};
use crate::transform_map::{collect_transform_entries_for_rect, spec_rect_entries};

verus! {

/// Number of bits of `x`: the smallest `b` with `x < 2^b`.
pub open spec fn spec_bit_length(x: nat) -> nat
    decreases x,
{
    if x == 0 {
        0
    } else {
        1 + spec_bit_length(x / 2)
    }
}

/// Bits of the field that holds a count from 1 to `upper_bound`: none for a
/// bound of at most 1, else the bit length of the bound (taken modulo 2^32)
/// minus one.
pub open spec fn spec_count_bits(upper_bound: int) -> nat {
    if upper_bound <= 1 {
        0
    } else {
        spec_bit_length((upper_bound % 0x1_0000_0000 - 1) as nat)
    }
}

/// The width of the count field for counts up to `upper_bound`.
pub fn count_num_bits(upper_bound: usize) -> (r: u32)
    requires
        upper_bound <= 1 || (upper_bound as int) % 0x1_0000_0000 != 0,
    ensures
        r == spec_count_bits(upper_bound as int),
        r <= 32,
{
    if upper_bound <= 1 {
        return 0;
    }
    let v: u32 = ((upper_bound as u64) % 0x1_0000_0000) as u32;
    let mut x: u32 = v - 1;
    let mut b: u32 = 0;
    proof {
        lemma_bit_length_u32((v - 1) as nat);
    }
    while x > 0
        invariant
            b + spec_bit_length(x as nat) == spec_bit_length((v - 1) as nat),
            spec_bit_length((v - 1) as nat) <= 32,
        decreases x,
    {
        x = x / 2;
        b = b + 1;
    }
    b
}

pub open spec fn spec_pow2(n: nat) -> nat
    decreases n,
{
    if n == 0 {
        1
    } else {
        2 * spec_pow2((n - 1) as nat)
    }
}

proof fn lemma_bit_length_bound(x: nat, k: nat)
    requires
        x < spec_pow2(k),
    ensures
        spec_bit_length(x) <= k,
    decreases k,
{
    if x > 0 {
        assert(k > 0);
        lemma_bit_length_bound(x / 2, (k - 1) as nat);
    }
}

proof fn lemma_bit_length_u32(x: nat)
    requires
        x < 0x1_0000_0000,
    ensures
        spec_bit_length(x) <= 32,
{
    assert(spec_pow2(32) == 0x1_0000_0000) by {
        reveal_with_fuel(spec_pow2, 33);
    }
    lemma_bit_length_bound(x, 32);
}

proof fn lemma_below_pow2_bit_length(x: nat)
    ensures
        x < spec_pow2(spec_bit_length(x)),
    decreases x,
{
    if x > 0 {
        lemma_below_pow2_bit_length(x / 2);
    }
}

/// A count from 1 to `upper_bound` (below 2^32), written minus one in
/// `spec_count_bits(upper_bound)` bits, fits in that field.
pub proof fn lemma_count_fits_field(count: int, upper_bound: int)
    requires
        1 <= count <= upper_bound < 0x1_0000_0000,
    ensures
        count - 1 < spec_pow2(spec_count_bits(upper_bound)),
{
    if upper_bound > 1 {
        assert(upper_bound % 0x1_0000_0000 == upper_bound);
        lemma_below_pow2_bit_length((upper_bound - 1) as nat);
    } else {
        assert(spec_pow2(0) == 1);
    }
}

/// Rows `0..rows` of the `w`-wide window at (`x0`, `y0`) of a plane with
/// row stride `stride`, concatenated.
pub open spec fn spec_crop<T>(plane: Seq<T>, stride: int, x0: int, y0: int, w: int, rows: int) -> Seq<T>
    decreases rows,
{
    if rows <= 0 {
        seq![]
    } else {
        let start = (y0 + rows - 1) * stride + x0;
        spec_crop(plane, stride, x0, y0, w, rows - 1) + Seq::new(w as nat, |k: int| plane[start + k])
    }
}

/// The window lies inside a plane of `len` samples.
pub open spec fn spec_window_in(len: int, stride: int, x0: int, y0: int, w: int, h: int) -> bool {
    w > 0 && h > 0 ==> (y0 + h - 1) * stride + x0 + w <= len
}

proof fn lemma_window_row(len: int, stride: int, x0: int, y0: int, w: int, h: int, y: int)
    requires
        spec_window_in(len, stride, x0, y0, w, h),
        0 <= y < h,
        w > 0,
        stride >= 0,
        x0 >= 0,
        y0 >= 0,
    ensures
        (y0 + y) * stride + x0 + w <= len,
{
    assert((y0 + y) * stride <= (y0 + h - 1) * stride) by (nonlinear_arith)
        requires
            y0 + y <= y0 + h - 1,
            stride >= 0,
    ;
}

fn append_crop(
    out: &mut Vec<i32>,
    plane: &[i32],
    stride: usize,
    x0: usize,
    y0: usize,
    w: usize,
    h: usize,
)
    requires
        spec_window_in(plane@.len() as int, stride as int, x0 as int, y0 as int, w as int, h as int),
        y0 + h <= usize::MAX,
    ensures
        final(out)@ == old(out)@ + spec_crop(plane@, stride as int, x0 as int, y0 as int, w as int, h as int),
{
    let _len = plane.len();
    let ghost before = out@;
    let mut y: usize = 0;
    while y < h
        invariant
            y <= h,
            y0 + h <= usize::MAX,
            _len == plane@.len(),
            spec_window_in(plane@.len() as int, stride as int, x0 as int, y0 as int, w as int, h as int),
            out@ == before + spec_crop(plane@, stride as int, x0 as int, y0 as int, w as int, y as int),
        decreases h - y,
    {
        if w > 0 {
            proof {
                lemma_window_row(plane@.len() as int, stride as int, x0 as int, y0 as int, w as int, h as int, y as int);
            }
            let start = (y0 + y) * stride + x0;
            let ghost row_start = out@;
            let mut x: usize = 0;
            while x < w
                invariant
                    x <= w,
                    _len == plane@.len(),
                    start + w <= plane@.len(),
                    out@ == row_start + Seq::new(x as nat, |k: int| plane@[start + k]),
                decreases w - x,
            {
                out.push(plane[start + x]);
                x = x + 1;
                assert(out@ =~= row_start + Seq::new(x as nat, |k: int| plane@[start + k]));
            }
        }
        y = y + 1;
        assert(out@ =~= before + spec_crop(plane@, stride as int, x0 as int, y0 as int, w as int, y as int));
    }
}


/// `ceil(n / 8)`.
pub open spec fn spec_div_ceil8(n: int) -> int {
    (n + 7) / 8
}

fn div_ceil8(n: usize) -> (r: usize)
    ensures
        r == spec_div_ceil8(n as int),
{
    n / 8 + if n % 8 != 0 {
        1
    } else {
        0
    }
}

/// The transform channel of HF metadata: the transform ids of the entries,
/// then their quant values minus one (0 staying 0).
pub open spec fn spec_transform_channel(entries: Seq<(u8, u8)>) -> Seq<i32> {
    Seq::new(entries.len(), |i: int| entries[i].0 as i32) + Seq::new(
        entries.len(),
        |i: int|
            (if entries[i].1 >= 1 {
                entries[i].1 - 1
            } else {
                0
            }) as i32,
    )
}

/// The edge-preserving-filter channel of `n` samples: the default
/// sharpness 4 for every block.
pub open spec fn spec_epf_channel(n: int) -> Seq<i32> {
    Seq::new(n as nat, |i: int| 4i32)
}

/// The HF metadata samples of the `gw` x `gh`-block rectangle at (`x0`, `y0`)
/// of a `bw`-block-wide frame: its tiles of the two color-correlation maps
/// (one sample per 8x8 blocks), its transform channel and its
/// edge-preserving-filter channel.
pub open spec fn spec_hf_metadata(
    transform_map: Seq<u8>,
    raw_quant_map: Seq<u8>,
    ytox_map: Seq<i32>,
    ytob_map: Seq<i32>,
    bw: int,
    x0: int,
    y0: int,
    gw: int,
    gh: int,
) -> Seq<i32> {
    let entries = spec_rect_entries(transform_map, raw_quant_map, bw, x0, y0, gw, gh);
    let cr_w = spec_div_ceil8(gw);
    let cr_h = spec_div_ceil8(gh);
    let gcw = spec_div_ceil8(bw);
    spec_crop(ytox_map, gcw, x0 / 8, y0 / 8, cr_w, cr_h) + spec_crop(ytob_map, gcw, x0 / 8, y0 / 8, cr_w, cr_h)
        + spec_transform_channel(entries) + spec_epf_channel(gw * gh)
}

/// The color-correlation tiles of the rectangle lie inside both maps.
pub open spec fn spec_cfl_tiles_in(ytox_len: int, ytob_len: int, bw: int, x0: int, y0: int, gw: int, gh: int) -> bool {
    let gcw = spec_div_ceil8(bw);
    &&& spec_window_in(ytox_len, gcw, x0 / 8, y0 / 8, spec_div_ceil8(gw), spec_div_ceil8(gh))
    &&& spec_window_in(ytob_len, gcw, x0 / 8, y0 / 8, spec_div_ceil8(gw), spec_div_ceil8(gh))
}

fn transform_channel(entries: &Vec<(u8, u8)>, out: &mut Vec<i32>)
    ensures
        final(out)@ == old(out)@ + spec_transform_channel(entries@),
{
    let ghost before = out@;
    let n = entries.len();
    let mut i: usize = 0;
    while i < n
        invariant
            i <= n,
            n == entries@.len(),
            out@ == before + Seq::new(i as nat, |k: int| entries@[k].0 as i32),
        decreases n - i,
    {
        out.push(entries[i].0 as i32);
        i = i + 1;
        assert(out@ =~= before + Seq::new(i as nat, |k: int| entries@[k].0 as i32));
    }
    let ghost mid = out@;
    let mut i: usize = 0;
    while i < n
        invariant
            i <= n,
            n == entries@.len(),
            out@ == mid + Seq::new(
                i as nat,
                |k: int|
                    (if entries@[k].1 >= 1 {
                        entries@[k].1 - 1
                    } else {
                        0
                    }) as i32,
            ),
        decreases n - i,
    {
        let q = entries[i].1;
        let v: u8 = if q >= 1 {
            q - 1
        } else {
            0
        };
        out.push(v as i32);
        i = i + 1;
        assert(out@ =~= mid + Seq::new(
            i as nat,
            |k: int|
                (if entries@[k].1 >= 1 {
                    entries@[k].1 - 1
                } else {
                    0
                }) as i32,
        ));
    }
    assert(out@ =~= before + spec_transform_channel(entries@));
}

/// The HF metadata samples of a rectangle and the number of transforms that
/// start in it.
pub fn build_hf_metadata(
    transform_map: &[u8],
    raw_quant_map: &[u8],
    ytox_map: &[i32],
    ytob_map: &[i32],
    bw: usize,
    x0: usize,
    y0: usize,
    gw: usize,
    gh: usize,
) -> (r: (Vec<i32>, usize))
    requires
        x0 + gw <= bw,
        transform_map@.len() == raw_quant_map@.len(),
        gw > 0 && gh > 0 ==> (y0 + gh - 1) * bw + x0 + gw <= transform_map@.len(),
        y0 + gh <= usize::MAX,
        gw * gh <= usize::MAX,
        spec_cfl_tiles_in(ytox_map@.len() as int, ytob_map@.len() as int, bw as int, x0 as int, y0 as int, gw as int, gh as int),
    ensures
        r.0@ == spec_hf_metadata(
            transform_map@,
            raw_quant_map@,
            ytox_map@,
            ytob_map@,
            bw as int,
            x0 as int,
            y0 as int,
            gw as int,
            gh as int,
        ),
        r.1 == spec_rect_entries(transform_map@, raw_quant_map@, bw as int, x0 as int, y0 as int, gw as int, gh as int).len(),
        r.1 <= gw * gh,
{
    proof {
        assert(gw > 0 && gh > 0 ==> (y0 + gh - 1) * bw + x0 + gw <= transform_map@.len());
        assert(gw > 0 && gh > 0 ==> ((y0 + gh - 1) * bw + x0 + gw) * 64 <= transform_map@.len() * 64) by (nonlinear_arith)
            requires
                gw > 0 && gh > 0 ==> (y0 + gh - 1) * bw + x0 + gw <= transform_map@.len(),
        ;
    }
    let entries = collect_transform_entries_for_rect(transform_map, raw_quant_map, bw, x0, y0, gw, gh);
    proof {
        lemma_rect_entries_len(transform_map@, raw_quant_map@, bw as int, x0 as int, y0 as int, gw as int, gh as int);
    }
    let count = entries.len();
    let cr_w = div_ceil8(gw);
    let cr_h = div_ceil8(gh);
    let gcw = div_ceil8(bw);
    let mut data: Vec<i32> = Vec::new();
    proof {
        assert(cr_h <= gh);
        assert(y0 / 8 + cr_h <= y0 + gh);
    }
    append_crop(&mut data, ytox_map, gcw, x0 / 8, y0 / 8, cr_w, cr_h);
    append_crop(&mut data, ytob_map, gcw, x0 / 8, y0 / 8, cr_w, cr_h);
    transform_channel(&entries, &mut data);
    let n = gw * gh;
    let ghost before = data@;
    let mut i: usize = 0;
    while i < n
        invariant
            i <= n,
            data@ == before + Seq::new(i as nat, |k: int| 4i32),
        decreases n - i,
    {
        data.push(4);
        i = i + 1;
        assert(data@ =~= before + Seq::new(i as nat, |k: int| 4i32));
    }
    (data, count)
}

proof fn lemma_rect_entries_len(map: Seq<u8>, quant: Seq<u8>, bw: int, x0: int, y0: int, rw: int, rows: int)
    requires
        rw >= 0,
        rows >= 0,
    ensures
        spec_rect_entries(map, quant, bw, x0, y0, rw, rows).len() <= rw * rows,
    decreases rows,
{
    if rows > 0 {
        lemma_rect_entries_len(map, quant, bw, x0, y0, rw, rows - 1);
        lemma_row_entries_len(map, quant, bw, x0, y0, rows - 1, rw);
        assert(rw * (rows - 1) + rw == rw * rows) by (nonlinear_arith);
    }
}

proof fn lemma_row_entries_len(map: Seq<u8>, quant: Seq<u8>, bw: int, x0: int, y0: int, y: int, n: int)
    requires
        n >= 0,
    ensures
        crate::transform_map::spec_row_entries(map, quant, bw, x0, y0, y, n).len() <= n,
    decreases n,
{
    if n > 0 {
        lemma_row_entries_len(map, quant, bw, x0, y0, y, n - 1);
    }
}


/// Start and extent of group `g` along an axis of `total` blocks cut into
/// groups of `dim` blocks.
pub open spec fn spec_group_span(g: int, dim: int, total: int) -> (int, int) {
    let start = g * dim;
    let end = if start + dim < total {
        start + dim
    } else {
        total
    };
    (start, end - start)
}

/// The DC samples of a rectangle: its Y, X and B windows, channel after channel.
pub open spec fn spec_dc_channels(
    dc_y: Seq<i32>,
    dc_x: Seq<i32>,
    dc_b: Seq<i32>,
    bw: int,
    x0: int,
    y0: int,
    gw: int,
    gh: int,
) -> Seq<i32> {
    spec_crop(dc_y, bw, x0, y0, gw, gh) + spec_crop(dc_x, bw, x0, y0, gw, gh) + spec_crop(dc_b, bw, x0, y0, gw, gh)
}

/// The fields of a rectangle's DC and HF metadata: no extra precision (two
/// zero bits), the DC samples as a three-channel modular stream, the number
/// of transforms minus one in `spec_count_bits(gw * gh)` bits, and the HF
/// metadata stream.
pub open spec fn spec_dc_and_metadata_fields(
    dc_y: Seq<i32>,
    dc_x: Seq<i32>,
    dc_b: Seq<i32>,
    raw_quant_map: Seq<u8>,
    transform_map: Seq<u8>,
    ytox_map: Seq<i32>,
    ytob_map: Seq<i32>,
    bw: int,
    x0: int,
    y0: int,
    gw: int,
    gh: int,
) -> Seq<FieldView> {
    let count = spec_rect_entries(transform_map, raw_quant_map, bw, x0, y0, gw, gh).len();
    let nb = spec_count_bits(gw * gh);
    seq![
        FieldView::Bits { n: 2, value: 0 },
        FieldView::ModularStream {
            width: gw as usize,
            height: gh as usize,
            channels: 3,
            data: spec_dc_channels(dc_y, dc_x, dc_b, bw, x0, y0, gw, gh),
        },
    ] + (if nb > 0 {
        seq![FieldView::Bits { n: nb as usize, value: (count - 1) as u64 }]
    } else {
        seq![]
    }) + seq![
        FieldView::HfMetadataStream {
            cr_w: spec_div_ceil8(gw) as usize,
            cr_h: spec_div_ceil8(gh) as usize,
            count: count as usize,
            width: gw as usize,
            height: gh as usize,
            data: spec_hf_metadata(transform_map, raw_quant_map, ytox_map, ytob_map, bw, x0, y0, gw, gh),
        },
    ]
}

/// What writing a rectangle's DC and HF metadata reads is there, the
/// rectangle starts at least one transform, and the count's field width
/// can be computed.
pub open spec fn spec_dc_and_metadata_ok(
    dc_y: Seq<i32>,
    dc_x: Seq<i32>,
    dc_b: Seq<i32>,
    raw_quant_map: Seq<u8>,
    transform_map: Seq<u8>,
    ytox_map: Seq<i32>,
    ytob_map: Seq<i32>,
    bw: int,
    bh: int,
    x0: int,
    y0: int,
    gw: int,
    gh: int,
) -> bool {
    &&& raw_quant_map.len() == bw * bh
    &&& transform_map.len() == bw * bh
    &&& 0 <= x0
    &&& 0 <= y0
    &&& x0 + gw <= bw
    &&& y0 + gh <= bh
    &&& spec_window_in(dc_y.len() as int, bw, x0, y0, gw, gh)
    &&& spec_window_in(dc_x.len() as int, bw, x0, y0, gw, gh)
    &&& spec_window_in(dc_b.len() as int, bw, x0, y0, gw, gh)
    &&& spec_rect_entries(transform_map, raw_quant_map, bw, x0, y0, gw, gh).len() > 0
    &&& (gw * gh <= 1 || (gw * gh) % 0x1_0000_0000 != 0)
    &&& spec_cfl_tiles_in(ytox_map.len() as int, ytob_map.len() as int, bw, x0, y0, gw, gh)
}

pub(crate) proof fn lemma_rect_in_map(bw: int, bh: int, x0: int, y0: int, gw: int, gh: int)
    requires
        0 <= x0,
        0 <= y0,
        x0 + gw <= bw,
        y0 + gh <= bh,
        gw > 0,
        gh > 0,
    ensures
        (y0 + gh - 1) * bw + x0 + gw <= bw * bh,
        gw * gh <= bw * bh,
{
    assert((y0 + gh - 1) * bw + x0 + gw <= (bh - 1) * bw + bw) by (nonlinear_arith)
        requires
            0 <= x0,
            0 <= y0,
            x0 + gw <= bw,
            y0 + gh <= bh,
            gw > 0,
            gh > 0,
    ;
    assert((bh - 1) * bw + bw == bw * bh) by (nonlinear_arith);
    assert(gw * gh <= bw * bh) by (nonlinear_arith)
        requires
            0 < gw <= bw,
            0 < gh <= bh,
    ;
}

fn push_dc_and_metadata(
    w: &mut Vec<HeaderField>,
    dc_y: &[i32],
    dc_x: &[i32],
    dc_b: &[i32],
    raw_quant_map: &[u8],
    transform_map: &[u8],
    ytox_map: &[i32],
    ytob_map: &[i32],
    bw: usize,
    bh: usize,
    x0: usize,
    y0: usize,
    gw: usize,
    gh: usize,
)
    requires
        spec_dc_and_metadata_ok(
            dc_y@,
            dc_x@,
            dc_b@,
            raw_quant_map@,
            transform_map@,
            ytox_map@,
            ytob_map@,
            bw as int,
            bh as int,
            x0 as int,
            y0 as int,
            gw as int,
            gh as int,
        ),
    ensures
        spec_field_views(final(w)@) == spec_field_views(old(w)@) + spec_dc_and_metadata_fields(
            dc_y@,
            dc_x@,
            dc_b@,
            raw_quant_map@,
            transform_map@,
            ytox_map@,
            ytob_map@,
            bw as int,
            x0 as int,
            y0 as int,
            gw as int,
            gh as int,
        ),
{
    let ghost before = spec_field_views(w@);
    let _len = transform_map.len();
    proof {
        if gw > 0 && gh > 0 {
            lemma_rect_in_map(bw as int, bh as int, x0 as int, y0 as int, gw as int, gh as int);
        } else {
            assert(gw * gh == 0) by (nonlinear_arith)
                requires
                    gw == 0 || gh == 0,
            ;
        }
    }
    push_view(w, HeaderField::Bits { n: 2, value: 0 });
    let mut dc_data: Vec<i32> = Vec::new();
    append_crop(&mut dc_data, dc_y, bw, x0, y0, gw, gh);
    append_crop(&mut dc_data, dc_x, bw, x0, y0, gw, gh);
    append_crop(&mut dc_data, dc_b, bw, x0, y0, gw, gh);
    push_view(w, HeaderField::ModularStream { width: gw, height: gh, channels: 3, data: dc_data });
    let upper_bound = gw * gh;
    let nb = count_num_bits(upper_bound);
    let (meta, count) = build_hf_metadata(transform_map, raw_quant_map, ytox_map, ytob_map, bw, x0, y0, gw, gh);
    if nb > 0 {
        push_view(w, HeaderField::Bits { n: nb as usize, value: (count - 1) as u64 });
    }
    let cr_w = div_ceil8(gw);
    let cr_h = div_ceil8(gh);
    push_view(
        w,
        HeaderField::HfMetadataStream { cr_w, cr_h, count, width: gw, height: gh, data: meta },
    );
    assert(spec_field_views(w@) =~= before + spec_dc_and_metadata_fields(
        dc_y@,
        dc_x@,
        dc_b@,
        raw_quant_map@,
        transform_map@,
        ytox_map@,
        ytob_map@,
        bw as int,
        x0 as int,
        y0 as int,
        gw as int,
        gh as int,
    ));
}


/// The fields of LF group (`gx`, `gy`): its DC and HF metadata (see
/// `spec_dc_and_metadata_fields`) for its rectangle of at most
/// `group_dim_blocks` x `group_dim_blocks` blocks, then padding to a byte.
pub open spec fn spec_lf_group_fields(
    gx: int,
    gy: int,
    bw: int,
    bh: int,
    group_dim_blocks: int,
    dc_y: Seq<i32>,
    dc_x: Seq<i32>,
    dc_b: Seq<i32>,
    raw_quant_map: Seq<u8>,
    transform_map: Seq<u8>,
    ytox_map: Seq<i32>,
    ytob_map: Seq<i32>,
) -> Seq<FieldView> {
    let (x0, gw) = spec_group_span(gx, group_dim_blocks, bw);
    let (y0, gh) = spec_group_span(gy, group_dim_blocks, bh);
    spec_dc_and_metadata_fields(
        dc_y,
        dc_x,
        dc_b,
        raw_quant_map,
        transform_map,
        ytox_map,
        ytob_map,
        bw,
        x0,
        y0,
        gw,
        gh,
    ) + seq![FieldView::ZeroPadToByte]
}

/// The fields of the section of LF group (`gx`, `gy`).
pub fn encode_lf_group_section(
    gx: usize,
    gy: usize,
    bw: usize,
    bh: usize,
    group_dim_blocks: usize,
    dc_y: &[i32],
    dc_x: &[i32],
    dc_b: &[i32],
    raw_quant_map: &[u8],
    transform_map: &[u8],
    ytox_map: &[i32],
    ytob_map: &[i32],
) -> (r: Vec<HeaderField>)
    requires
        gx * group_dim_blocks <= bw,
        gy * group_dim_blocks <= bh,
        gx * group_dim_blocks + group_dim_blocks <= usize::MAX,
        gy * group_dim_blocks + group_dim_blocks <= usize::MAX,
        ({
            let (x0, gw) = spec_group_span(gx as int, group_dim_blocks as int, bw as int);
            let (y0, gh) = spec_group_span(gy as int, group_dim_blocks as int, bh as int);
            spec_dc_and_metadata_ok(
                dc_y@,
                dc_x@,
                dc_b@,
                raw_quant_map@,
                transform_map@,
                ytox_map@,
                ytob_map@,
                bw as int,
                bh as int,
                x0,
                y0,
                gw,
                gh,
            )
        }),
    ensures
        spec_field_views(r@) == spec_lf_group_fields(
            gx as int,
            gy as int,
            bw as int,
            bh as int,
            group_dim_blocks as int,
            dc_y@,
            dc_x@,
            dc_b@,
            raw_quant_map@,
            transform_map@,
            ytox_map@,
            ytob_map@,
        ),
{
    let x0 = gx * group_dim_blocks;
    let y0 = gy * group_dim_blocks;
    let x_end = if x0 + group_dim_blocks < bw {
        x0 + group_dim_blocks
    } else {
        bw
    };
    let y_end = if y0 + group_dim_blocks < bh {
        y0 + group_dim_blocks
    } else {
        bh
    };
    let gw = x_end - x0;
    let gh = y_end - y0;
    let mut w: Vec<HeaderField> = Vec::new();
    assert(spec_field_views(w@) =~= Seq::<FieldView>::empty());
    push_dc_and_metadata(
        &mut w,
        dc_y,
        dc_x,
        dc_b,
        raw_quant_map,
        transform_map,
        ytox_map,
        ytob_map,
        bw,
        bh,
        x0,
        y0,
        gw,
        gh,
    );
    push_view(&mut w, HeaderField::ZeroPadToByte);
    assert(spec_field_views(w@) =~= spec_lf_group_fields(
        gx as int,
        gy as int,
        bw as int,
        bh as int,
        group_dim_blocks as int,
        dc_y@,
        dc_x@,
        dc_b@,
        raw_quant_map@,
        transform_map@,
        ytox_map@,
        ytob_map@,
    ));
    w
}


/// The optimal scan orders (Y, X, B) of a whole single-group frame.
pub open spec fn spec_single_group_orders(
    ac_x: Seq<i32>,
    ac_y: Seq<i32>,
    ac_b: Seq<i32>,
    map: Seq<u8>,
    bw: int,
    bh: int,
) -> Seq<Seq<usize>> {
    seq![
        spec_optimal_order(ac_y, map, bw, 0, 0, bw, bh),
        spec_optimal_order(ac_x, map, bw, 0, 0, bw, bh),
        spec_optimal_order(ac_b, map, bw, 0, 0, bw, bh),
    ]
}

/// Custom orders are used from effort 6 on, unless all three are the zigzag.
pub open spec fn spec_uses_custom_orders(effort: u8, orders: Seq<Seq<usize>>) -> bool {
    effort >= 6 && !(orders[0] == spec_zigzag_8x8() && orders[1] == spec_zigzag_8x8() && orders[2]
        == spec_zigzag_8x8())
}

/// The permutation tokens of one custom order.
pub open spec fn spec_one_order_tokens(o: Seq<usize>) -> Seq<(usize, u32)> {
    spec_order_tokens(spec_order_lehmer(o), spec_trimmed_len(spec_order_lehmer(o)))
}

/// The whole frame as one region of AC coefficients: 15 block contexts,
/// context offset 0, the given orders, no custom block-context map.
pub open spec fn spec_single_group_region(
    ac_x: Seq<i32>,
    ac_y: Seq<i32>,
    ac_b: Seq<i32>,
    map: Seq<u8>,
    bw: int,
    bh: int,
    orders: Option<Seq<Seq<usize>>>,
) -> HfRegion {
    HfRegion {
        ac: seq![ac_y, ac_x, ac_b],
        map,
        full_bw: bw,
        x0: 0,
        y0: 0,
        rw: bw,
        rh: bh,
        num_contexts: 15,
        context_offset: 0,
        orders,
        quant: None,
        block_ctx: None,
    }
}

/// No AC coefficient that tokenizing the whole frame codes as a token is
/// `i32::MIN` (which has no packed value).
pub open spec fn spec_frame_no_min(
    ac_x: Seq<i32>,
    ac_y: Seq<i32>,
    ac_b: Seq<i32>,
    map: Seq<u8>,
    bw: int,
    bh: int,
) -> bool {
    spec_region_no_min(spec_single_group_region(ac_x, ac_y, ac_b, map, bw, bh, None))
}

/// Number of AC contexts with the 15 default block contexts.
pub open spec fn spec_default_num_ac_contexts() -> usize {
    (15 * (37 + 458)) as usize
}

/// The LfGlobal fields of a single-group frame: default LF quant factors,
/// the quantizer, default block-context map and color correlation, no
/// global tree.
pub open spec fn spec_single_lf_global_fields(global_scale: u32, quant_lf: u32) -> Seq<FieldView> {
    seq![
        FieldView::Bits { n: 1, value: 1 },
        FieldView::U32 { coder: spec_global_scale_coder(), value: global_scale },
        FieldView::U32 { coder: spec_quant_lf_coder(), value: quant_lf },
        FieldView::Bits { n: 1, value: 1 },
        FieldView::Bits { n: 1, value: 1 },
        FieldView::Bits { n: 1, value: 0 },
    ]
}

/// The alpha channel, if any, as a one-channel `width` x `height` modular stream.
pub open spec fn spec_alpha_fields(alpha: Option<Seq<u8>>, width: usize, height: usize) -> Seq<FieldView> {
    match alpha {
        Some(a) => seq![
            FieldView::ModularStream {
                width,
                height,
                channels: 1,
                data: Seq::new(a.len(), |i: int| a[i] as i32),
            },
        ],
        None => seq![],
    }
}

/// The coefficient-order fields of HfGlobal: with custom orders, the used
/// orders (selector 3, 13 bits holding 1: the DCT8x8 order) and the tokens
/// of the orders of X, Y and B; otherwise selector 2 (no custom order).
pub open spec fn spec_order_fields(custom: bool, orders: Seq<Seq<usize>>) -> Seq<FieldView> {
    if custom {
        seq![
            FieldView::Bits { n: 2, value: 3 },
            FieldView::Bits { n: 13, value: 1 },
            FieldView::CoeffOrderTokens(
                spec_one_order_tokens(orders[1]) + spec_one_order_tokens(orders[0]) + spec_one_order_tokens(
                    orders[2],
                ),
            ),
        ]
    } else {
        seq![FieldView::Bits { n: 2, value: 2 }]
    }
}

/// The section of a single-group frame, or the tokenizer's error: LfGlobal,
/// alpha, the DC and HF metadata of the whole frame, HfGlobal (default
/// dequantization, the coefficient orders) and the AC histograms and tokens
/// (ANS), padded to a byte.
pub open spec fn spec_single_group_section(
    bw: int,
    bh: int,
    width: usize,
    height: usize,
    global_scale: u32,
    quant_lf: u32,
    dc_y: Seq<i32>,
    dc_x: Seq<i32>,
    dc_b: Seq<i32>,
    ac_x: Seq<i32>,
    ac_y: Seq<i32>,
    ac_b: Seq<i32>,
    raw_quant_map: Seq<u8>,
    transform_map: Seq<u8>,
    ytox_map: Seq<i32>,
    ytob_map: Seq<i32>,
    alpha: Option<Seq<u8>>,
    effort: u8,
) -> Result<Seq<FieldView>, Error> {
    let orders = spec_single_group_orders(ac_x, ac_y, ac_b, transform_map, bw, bh);
    let custom = spec_uses_custom_orders(effort, orders);
    let region = spec_single_group_region(
        ac_x,
        ac_y,
        ac_b,
        transform_map,
        bw,
        bh,
        if custom {
            Some(orders)
        } else {
            None
        },
    );
    match spec_tokenize_region(region) {
        Err(e) => Err(e),
        Ok(tokens) => Ok(
            spec_single_lf_global_fields(global_scale, quant_lf) + spec_alpha_fields(alpha, width, height)
                + spec_dc_and_metadata_fields(
                dc_y,
                dc_x,
                dc_b,
                raw_quant_map,
                transform_map,
                ytox_map,
                ytob_map,
                bw,
                0,
                0,
                bw,
                bh,
            ) + seq![FieldView::Bits { n: 1, value: 1 }] + spec_order_fields(custom, orders) + seq![
                FieldView::AcTokens {
                    num_ac_contexts: spec_default_num_ac_contexts(),
                    tokens,
                    use_ans: true,
                },
                FieldView::ZeroPadToByte,
            ],
        ),
    }
}

fn widen_samples(a: &[u8]) -> (r: Vec<i32>)
    ensures
        r@ == Seq::new(a@.len(), |i: int| a@[i] as i32),
{
    let n = a.len();
    let mut out: Vec<i32> = Vec::new();
    let mut i: usize = 0;
    while i < n
        invariant
            i <= n,
            n == a@.len(),
            out@ == Seq::new(i as nat, |k: int| a@[k] as i32),
        decreases n - i,
    {
        out.push(a[i] as i32);
        i = i + 1;
        assert(out@ =~= Seq::new(i as nat, |k: int| a@[k] as i32));
    }
    out
}

pub(crate) fn orders_are_zigzag(orders: &[[usize; 64]; 3]) -> (r: bool)
    ensures
        r == (orders[0]@ == spec_zigzag_8x8() && orders[1]@ == spec_zigzag_8x8() && orders[2]@
            == spec_zigzag_8x8()),
{
    let natural = natural_coeff_order_8x8();
    let mut c: usize = 0;
    while c < 3
        invariant
            c <= 3,
            natural@ == spec_zigzag_8x8(),
            forall|d: int| 0 <= d < c ==> orders[d]@ == spec_zigzag_8x8(),
        decreases 3 - c,
    {
        let mut k: usize = 0;
        while k < 64
            invariant
                k <= 64,
                c < 3,
                natural@ == spec_zigzag_8x8(),
                forall|j: int| 0 <= j < k ==> orders[c as int]@[j] == natural@[j],
            decreases 64 - k,
        {
            if orders[c][k] != natural[k] {
                return false;
            }
            k = k + 1;
        }
        assert(orders[c as int]@ =~= spec_zigzag_8x8());
        c = c + 1;
    }
    true
}

pub(crate) proof fn lemma_whole_frame_readable(len: int, map: Seq<u8>, bw: int, bh: int)
    requires
        map.len() == bw * bh,
        len >= bw * bh * 64,
        bw >= 0,
        bh >= 0,
    ensures
        spec_region_readable(len, map, bw, 0, 0, bw, bh),
        bw > 0 && bh > 0 ==> ((0 + bh - 1) * bw + 0 + bw) * 64 <= len,
        bw > 0 && bh > 0 ==> ((0 + bh - 1) * bw + 0 + bw) * 64 <= map.len() * 64,
{
    assert forall|bx: int, by: int| 0 <= bx < bw && 0 <= by < bh implies {
        let idx = #[trigger] crate::transform_map::spec_region_block(bw, 0, 0, bx, by);
        0 <= idx < map.len() && (map[idx] == 0x80u8 ==> idx * 64 + 64 <= len)
    } by {
        let idx = crate::transform_map::spec_region_block(bw, 0, 0, bx, by);
        assert(0 <= idx < bw * bh) by (nonlinear_arith)
            requires
                idx == (0 + by) * bw + (0 + bx),
                0 <= bx < bw,
                0 <= by < bh,
        ;
        assert(idx * 64 + 64 <= bw * bh * 64) by (nonlinear_arith)
            requires
                0 <= idx < bw * bh,
        ;
    }
    assert(bw > 0 && bh > 0 ==> (0 + bh - 1) * bw + 0 + bw == bw * bh) by (nonlinear_arith);
}

fn push_single_group_head(
    w: &mut Vec<HeaderField>,
    global_scale: u32,
    quant_lf: u32,
    alpha: Option<&[u8]>,
    width: usize,
    height: usize,
    dc_y: &[i32],
    dc_x: &[i32],
    dc_b: &[i32],
    raw_quant_map: &[u8],
    transform_map: &[u8],
    ytox_map: &[i32],
    ytob_map: &[i32],
    bw: usize,
    bh: usize,
)
    requires
        spec_dc_and_metadata_ok(
            dc_y@,
            dc_x@,
            dc_b@,
            raw_quant_map@,
            transform_map@,
            ytox_map@,
            ytob_map@,
            bw as int,
            bh as int,
            0,
            0,
            bw as int,
            bh as int,
        ),
    ensures
        spec_field_views(final(w)@) == spec_field_views(old(w)@) + spec_single_lf_global_fields(
            global_scale,
            quant_lf,
        ) + spec_alpha_fields(
            match alpha {
                Some(a) => Some(a@),
                None => None,
            },
            width,
            height,
        ) + spec_dc_and_metadata_fields(
            dc_y@,
            dc_x@,
            dc_b@,
            raw_quant_map@,
            transform_map@,
            ytox_map@,
            ytob_map@,
            bw as int,
            0,
            0,
            bw as int,
            bh as int,
        ),
{
    let ghost start = spec_field_views(w@);
    push_view(w, HeaderField::Bits { n: 1, value: 1 });
    push_view(w, HeaderField::U32 { coder: global_scale_coder(), value: global_scale });
    push_view(w, HeaderField::U32 { coder: quant_lf_coder(), value: quant_lf });
    push_view(w, HeaderField::Bits { n: 1, value: 1 });
    push_view(w, HeaderField::Bits { n: 1, value: 1 });
    push_view(w, HeaderField::Bits { n: 1, value: 0 });
    assert(spec_field_views(w@) =~= start + spec_single_lf_global_fields(global_scale, quant_lf));
    let ghost lf = spec_field_views(w@);
    match alpha {
        Some(a) => {
            let data = widen_samples(a);
            push_view(w, HeaderField::ModularStream { width, height, channels: 1, data });
        },
        None => {},
    }
    assert(spec_field_views(w@) =~= lf + spec_alpha_fields(
        match alpha {
            Some(a) => Some(a@),
            None => None,
        },
        width,
        height,
    ));
    push_dc_and_metadata(
        w,
        dc_y,
        dc_x,
        dc_b,
        raw_quant_map,
        transform_map,
        ytox_map,
        ytob_map,
        bw,
        bh,
        0,
        0,
        bw,
        bh,
    );
}

fn push_hf_global_and_tokens(
    w: &mut Vec<HeaderField>,
    use_custom: bool,
    orders: &[[usize; 64]; 3],
    tokens: Vec<AcToken>,
)
    requires
        use_custom ==> forall|c: int| 0 <= c < 3 ==> crate::coeff_order::spec_valid_order_8x8(#[trigger] orders[c]@),
    ensures
        spec_field_views(final(w)@) == spec_field_views(old(w)@) + seq![FieldView::Bits { n: 1, value: 1 }]
            + spec_order_fields(use_custom, seq![orders[0]@, orders[1]@, orders[2]@]) + seq![
            FieldView::AcTokens {
                num_ac_contexts: spec_default_num_ac_contexts(),
                tokens: tokens@,
                use_ans: true,
            },
            FieldView::ZeroPadToByte,
        ],
{
    let ghost start = spec_field_views(w@);
    let ghost tv = tokens@;
    push_view(w, HeaderField::Bits { n: 1, value: 1 });
    let ghost before_orders = spec_field_views(w@);
    if use_custom {
        push_view(w, HeaderField::Bits { n: 2, value: 3 });
        push_view(w, HeaderField::Bits { n: 13, value: 1 });
        let decoder_order = [orders[1], orders[0], orders[2]];
        let t = permutation_tokens(&decoder_order);
        push_view(w, HeaderField::CoeffOrderTokens(t));
    } else {
        push_view(w, HeaderField::Bits { n: 2, value: 2 });
    }
    assert(spec_field_views(w@) =~= before_orders + spec_order_fields(
        use_custom,
        seq![orders[0]@, orders[1]@, orders[2]@],
    ));
    let num_contexts: usize = 15;
    push_view(
        w,
        HeaderField::AcTokens {
            num_ac_contexts: num_contexts * (NON_ZERO_BUCKETS + ZERO_DENSITY_CONTEXT_COUNT),
            tokens,
            use_ans: true,
        },
    );
    push_view(w, HeaderField::ZeroPadToByte);
    assert(spec_field_views(w@) =~= start + seq![FieldView::Bits { n: 1, value: 1 }] + spec_order_fields(
        use_custom,
        seq![orders[0]@, orders[1]@, orders[2]@],
    ) + seq![
        FieldView::AcTokens { num_ac_contexts: spec_default_num_ac_contexts(), tokens: tv, use_ans: true },
        FieldView::ZeroPadToByte,
    ]);
}

/// The section of a frame that fits in one group, or the tokenizer's error.
pub fn encode_single_group_section(
    bw: usize,
    bh: usize,
    width: usize,
    height: usize,
    global_scale: u32,
    quant_lf: u32,
    dc_y: &[i32],
    dc_x: &[i32],
    dc_b: &[i32],
    ac_x: &[i32],
    ac_y: &[i32],
    ac_b: &[i32],
    raw_quant_map: &[u8],
    transform_map: &[u8],
    ytox_map: &[i32],
    ytob_map: &[i32],
    alpha: Option<&[u8]>,
    effort: u8,
) -> (r: Result<Vec<HeaderField>, Error>)
    requires
        spec_dc_and_metadata_ok(
            dc_y@,
            dc_x@,
            dc_b@,
            raw_quant_map@,
            transform_map@,
            ytox_map@,
            ytob_map@,
            bw as int,
            bh as int,
            0,
            0,
            bw as int,
            bh as int,
        ),
        ac_x@.len() >= bw * bh * 64,
        ac_y@.len() >= bw * bh * 64,
        ac_b@.len() >= bw * bh * 64,
        spec_frame_no_min(ac_x@, ac_y@, ac_b@, transform_map@, bw as int, bh as int),
    ensures
        spec_single_group_section(
            bw as int,
            bh as int,
            width,
            height,
            global_scale,
            quant_lf,
            dc_y@,
            dc_x@,
            dc_b@,
            ac_x@,
            ac_y@,
            ac_b@,
            raw_quant_map@,
            transform_map@,
            ytox_map@,
            ytob_map@,
            match alpha {
                Some(a) => Some(a@),
                None => None,
            },
            effort,
        ) == (match r {
            Ok(f) => Ok(spec_field_views(f@)),
            Err(e) => Err(e),
        }),
{
    let _len = ac_x.len();
    proof {
        assert(bw * bh <= bw * bh * 64) by (nonlinear_arith);
        lemma_whole_frame_readable(ac_x@.len() as int, transform_map@, bw as int, bh as int);
        lemma_whole_frame_readable(ac_y@.len() as int, transform_map@, bw as int, bh as int);
        lemma_whole_frame_readable(ac_b@.len() as int, transform_map@, bw as int, bh as int);
    }
    let mut w: Vec<HeaderField> = Vec::new();
    assert(spec_field_views(w@) =~= Seq::<FieldView>::empty());
    push_single_group_head(
        &mut w,
        global_scale,
        quant_lf,
        alpha,
        width,
        height,
        dc_y,
        dc_x,
        dc_b,
        raw_quant_map,
        transform_map,
        ytox_map,
        ytob_map,
        bw,
        bh,
    );
    let ghost head = spec_field_views(w@);
    let orders = compute_optimal_coeff_orders_8x8(ac_y, ac_x, ac_b, transform_map, bw, 0, 0, bw, bh);
    let ghost so = spec_single_group_orders(ac_x@, ac_y@, ac_b@, transform_map@, bw as int, bh as int);
    assert(seq![orders[0]@, orders[1]@, orders[2]@] =~= so);
    proof {
        lemma_zigzag_facts();
        lemma_optimal_order_valid(ac_y@, transform_map@, bw as int, 0, 0, bw as int, bh as int, orders[0]@);
        lemma_optimal_order_valid(ac_x@, transform_map@, bw as int, 0, 0, bw as int, bh as int, orders[1]@);
        lemma_optimal_order_valid(ac_b@, transform_map@, bw as int, 0, 0, bw as int, bh as int, orders[2]@);
        assert forall|c: int, k: int| 0 <= c < 3 && 0 <= k < 64 implies #[trigger] orders[c]@[k] < 64 by {
            assert(spec_contains(spec_zigzag_8x8(), orders[c]@[k]));
            let j = choose|j: int| 0 <= j < spec_zigzag_8x8().len() && spec_zigzag_8x8()[j] == orders[c]@[k];
            assert(spec_zigzag_8x8()[j] < 64);
        }
    }
    let natural_everywhere = orders_are_zigzag(&orders);
    let use_custom = effort >= 6 && !natural_everywhere;
    proof {
        let base = spec_single_group_region(ac_x@, ac_y@, ac_b@, transform_map@, bw as int, bh as int, None);
        let o = seq![orders[0]@, orders[1]@, orders[2]@];
        let used = spec_hf_region(
            ac_x,
            ac_y,
            ac_b,
            transform_map,
            bw,
            0,
            0,
            bw,
            bh,
            15,
            0,
            if use_custom {
                Some(&orders)
            } else {
                None
            },
            None,
            None,
        );
        if use_custom {
            lemma_region_no_min_any_orders(base, o);
            assert(used == HfRegion { orders: Some(o), ..base });
        } else {
            assert(used == base);
        }
    }
    let tokens = match tokenize_hf_region(
        ac_x,
        ac_y,
        ac_b,
        transform_map,
        bw,
        0,
        0,
        bw,
        bh,
        15,
        0,
        if use_custom {
            Some(&orders)
        } else {
            None
        },
        None,
        None,
    ) {
        Ok(t) => t,
        Err(e) => {
            return Err(e);
        },
    };
    push_hf_global_and_tokens(&mut w, use_custom, &orders, tokens);
    Ok(w)
}
} // verus!

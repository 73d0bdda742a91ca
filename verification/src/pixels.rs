use vstd::prelude::*;

verus! {

/// Expands gray samples to RGB: each sample becomes three equal ones.
pub fn gray_to_rgb(gray: &[u8]) -> (r: Vec<u8>)
    requires
        gray@.len() * 3 <= usize::MAX,
    ensures
        r@.len() == gray@.len() * 3,
        forall|i: int, k: int| 0 <= i < gray@.len() && 0 <= k < 3 ==> #[trigger] r@[i * 3 + k] == gray@[i],
{
    let n = gray.len();
    let mut out: Vec<u8> = Vec::new();
    let mut i: usize = 0;
    while i < n
        invariant
            i <= n,
            n == gray@.len(),
            n * 3 <= usize::MAX,
            out@.len() == i * 3,
            forall|t: int, k: int| 0 <= t < i && 0 <= k < 3 ==> #[trigger] out@[t * 3 + k] == gray@[t],
        decreases n - i,
    {
        let g = gray[i];
        let ghost before = out@;
        out.push(g);
        out.push(g);
        out.push(g);
        proof {
            assert forall|t: int, k: int| 0 <= t < i + 1 && 0 <= k < 3 implies #[trigger] out@[t * 3 + k] == gray@[t] by {
                if t < i {
                    assert(t * 3 + k < i * 3) by (nonlinear_arith)
                        requires
                            t < i,
                            k < 3,
                    ;
                    assert(out@[t * 3 + k] == before[t * 3 + k]);
                } else {
                    assert(t * 3 + k == i * 3 + k);
                }
            }
        }
        i = i + 1;
    }
    out
}


/// Splits `npixels` interleaved RGBA pixels into interleaved RGB and the
/// alpha plane.
pub fn split_rgba(rgba: &[u8], npixels: usize) -> (r: (Vec<u8>, Vec<u8>))
    requires
        rgba@.len() == npixels * 4,
    ensures
        r.0@.len() == npixels * 3,
        r.1@.len() == npixels,
        forall|i: int, k: int| 0 <= i < npixels && 0 <= k < 3 ==> #[trigger] r.0@[i * 3 + k] == rgba@[i * 4 + k],
        forall|i: int| 0 <= i < npixels ==> #[trigger] r.1@[i] == rgba@[i * 4 + 3],
{
    let _len = rgba.len();
    let mut rgb: Vec<u8> = Vec::new();
    let mut alpha: Vec<u8> = Vec::new();
    let mut i: usize = 0;
    while i < npixels
        invariant
            i <= npixels,
            rgba@.len() == npixels * 4,
            _len == rgba@.len(),
            rgb@.len() == i * 3,
            alpha@.len() == i,
            forall|t: int, k: int| 0 <= t < i && 0 <= k < 3 ==> #[trigger] rgb@[t * 3 + k] == rgba@[t * 4 + k],
            forall|t: int| 0 <= t < i ==> #[trigger] alpha@[t] == rgba@[t * 4 + 3],
        decreases npixels - i,
    {
        let base = i * 4;
        let ghost before = rgb@;
        rgb.push(rgba[base]);
        rgb.push(rgba[base + 1]);
        rgb.push(rgba[base + 2]);
        alpha.push(rgba[base + 3]);
        proof {
            assert forall|t: int, k: int| 0 <= t < i + 1 && 0 <= k < 3 implies #[trigger] rgb@[t * 3 + k] == rgba@[t * 4 + k] by {
                if t < i {
                    assert(t * 3 + k < i * 3) by (nonlinear_arith)
                        requires
                            t < i,
                            k < 3,
                    ;
                    assert(rgb@[t * 3 + k] == before[t * 3 + k]);
                } else {
                    assert(t * 3 + k == i * 3 + k);
                }
            }
        }
        i = i + 1;
    }
    (rgb, alpha)
}

/// Sample layouts of decoded 8-bit PNG rows.
#[derive(Debug, Clone, Copy, PartialEq, Eq, Structural)]
pub enum PngColorType {
    Grayscale,
    Rgb,
    Indexed,
    GrayscaleAlpha,
    Rgba,
}

/// Samples per pixel of a layout (palette indices count one).
pub open spec fn spec_samples_per_pixel(color: PngColorType) -> nat {
    match color {
        PngColorType::Grayscale => 1,
        PngColorType::Rgb => 3,
        PngColorType::Indexed => 1,
        PngColorType::GrayscaleAlpha => 2,
        PngColorType::Rgba => 4,
    }
}

/// Channel `k` (R, G, B, A) of pixel `i` in RGBA: gray repeats in R, G, B,
/// a missing alpha is opaque.
pub open spec fn spec_rgba_sample(color: PngColorType, data: Seq<u8>, i: int, k: int) -> u8 {
    match color {
        PngColorType::Rgba => data[i * 4 + k],
        PngColorType::Rgb => if k < 3 {
            data[i * 3 + k]
        } else {
            255u8
        },
        PngColorType::Grayscale => if k < 3 {
            data[i]
        } else {
            255u8
        },
        PngColorType::GrayscaleAlpha => if k < 3 {
            data[i * 2]
        } else {
            data[i * 2 + 1]
        },
        PngColorType::Indexed => 0u8,
    }
}

/// Expands `npixels` pixels of 8-bit samples to RGBA; `None` for palette
/// images, which are expected to have been expanded by the decoder.
pub fn expand_to_rgba(color: PngColorType, data: &[u8], npixels: usize) -> (r: Option<Vec<u8>>)
    requires
        npixels * 4 <= usize::MAX,
        color == PngColorType::Rgba ==> data@.len() == npixels * 4,
        color != PngColorType::Rgba && color != PngColorType::Indexed ==> data@.len() >= npixels
            * spec_samples_per_pixel(color),
    ensures
        r is None <==> color == PngColorType::Indexed,
        r matches Some(v) ==> {
            &&& v@.len() == npixels * 4
            &&& forall|i: int, k: int|
                0 <= i < npixels && 0 <= k < 4 ==> #[trigger] v@[i * 4 + k] == spec_rgba_sample(
                    color,
                    data@,
                    i,
                    k,
                )
        },
{
    if color == PngColorType::Indexed {
        return None;
    }
    let mut out: Vec<u8> = Vec::new();
    let mut i: usize = 0;
    while i < npixels
        invariant
            i <= npixels,
            npixels * 4 <= usize::MAX,
            color != PngColorType::Indexed,
            color == PngColorType::Rgba ==> data@.len() == npixels * 4,
            color != PngColorType::Rgba ==> data@.len() >= npixels * spec_samples_per_pixel(color),
            out@.len() == i * 4,
            forall|t: int, k: int|
                0 <= t < i && 0 <= k < 4 ==> #[trigger] out@[t * 4 + k] == spec_rgba_sample(color, data@, t, k),
        decreases npixels - i,
    {
        let ghost before = out@;
        assert(i * 4 + 3 < npixels * 4 && i * 3 + 2 < npixels * 3 && i * 2 + 1 < npixels * 2) by (nonlinear_arith)
            requires
                i < npixels,
        ;
        let (r0, g0, b0, a0) = match color {
            PngColorType::Rgba => (data[i * 4], data[i * 4 + 1], data[i * 4 + 2], data[i * 4 + 3]),
            PngColorType::Rgb => (data[i * 3], data[i * 3 + 1], data[i * 3 + 2], 255u8),
            PngColorType::Grayscale => (data[i], data[i], data[i], 255u8),
            PngColorType::GrayscaleAlpha => (data[i * 2], data[i * 2], data[i * 2], data[i * 2 + 1]),
            PngColorType::Indexed => (0u8, 0u8, 0u8, 0u8),
        };
        out.push(r0);
        out.push(g0);
        out.push(b0);
        out.push(a0);
        proof {
            assert forall|t: int, k: int| 0 <= t < i + 1 && 0 <= k < 4 implies #[trigger] out@[t * 4 + k]
                == spec_rgba_sample(color, data@, t, k) by {
                if t < i {
                    assert(t * 4 + k < i * 4) by (nonlinear_arith)
                        requires
                            t < i,
                            k < 4,
                    ;
                    assert(out@[t * 4 + k] == before[t * 4 + k]);
                } else {
                    assert(t * 4 + k == i * 4 + k);
                }
            }
        }
        i = i + 1;
    }
    Some(out)
}

/// What decoding the first frame of the PNG file `bytes` gives, with
/// palettes and bit depths below 8 expanded and 16-bit samples cut to 8
/// bits: width, height, PNG colour type code, bit depth and the frame's
/// samples; `None` when the bytes do not decode.
pub uninterp spec fn spec_png_decode(bytes: Seq<u8>) -> Option<(u32, u32, u8, u8, Seq<u8>)>;

/// Decodes the first frame of a PNG file with the `png` crate (`Decoder`
/// with `EXPAND | STRIP_16`, `read_info`, `output_buffer_size`,
/// `next_frame`), keeping the frame's `buffer_size()` bytes. The contract
/// claims only that the result depends on the bytes alone: it is
/// `spec_png_decode` of them, what the decoder computes is not stated.
#[verifier::external_body]
pub(crate) fn decode_png_first_frame(bytes: &[u8]) -> (r: Option<(u32, u32, u8, u8, Vec<u8>)>)
    ensures
        (match r {
            Some(f) => Some((f.0, f.1, f.2, f.3, f.4@)),
            None => None,
        }) == spec_png_decode(bytes@),
{
    let mut decoder = png::Decoder::new(std::io::Cursor::new(bytes));
    decoder.set_transformations(png::Transformations::EXPAND | png::Transformations::STRIP_16);
    let mut reader = decoder.read_info().ok()?;
    let mut buf = vec![0u8; reader.output_buffer_size()?];
    let info = reader.next_frame(&mut buf).ok()?;
    buf.truncate(info.buffer_size());
    Some((info.width, info.height, info.color_type as u8, info.bit_depth as u8, buf))
}

/// The sample layout of PNG colour type `code`, if it is one.
pub open spec fn spec_png_color(code: u8) -> Option<PngColorType> {
    if code == 0 {
        Some(PngColorType::Grayscale)
    } else if code == 2 {
        Some(PngColorType::Rgb)
    } else if code == 3 {
        Some(PngColorType::Indexed)
    } else if code == 4 {
        Some(PngColorType::GrayscaleAlpha)
    } else if code == 6 {
        Some(PngColorType::Rgba)
    } else {
        None
    }
}

/// The sample layout of PNG colour type `code`.
pub fn png_color(code: u8) -> (r: Option<PngColorType>)
    ensures
        r == spec_png_color(code),
{
    if code == 0 {
        Some(PngColorType::Grayscale)
    } else if code == 2 {
        Some(PngColorType::Rgb)
    } else if code == 3 {
        Some(PngColorType::Indexed)
    } else if code == 4 {
        Some(PngColorType::GrayscaleAlpha)
    } else if code == 6 {
        Some(PngColorType::Rgba)
    } else {
        None
    }
}

/// Why a PNG frame gives no RGBA pixels.
#[derive(Debug, Clone, Copy, PartialEq, Eq, Structural)]
pub enum PngFrameError {
    /// The bytes do not decode, or to an unknown colour type.
    Decode,
    /// The decoded samples have this bit depth, not 8.
    NotEightBit(u8),
    /// The decoded samples are still palette indices.
    Indexed,
    /// The decoded samples do not hold the frame's pixels.
    SampleCount,
}

/// Whether `len` samples of layout `color` hold `npixels` pixels (exactly,
/// for RGBA), and their RGBA expansion fits in memory.
pub open spec fn spec_samples_fit(color: PngColorType, len: nat, npixels: nat) -> bool {
    &&& npixels * 4 <= usize::MAX
    &&& if color == PngColorType::Rgba {
        len == npixels * 4
    } else {
        len >= npixels * spec_samples_per_pixel(color)
    }
}

/// The RGBA pixels of the first frame of the PNG file `bytes`: decodes it
/// (see `spec_png_decode`), refuses bit depths other than 8, palette output
/// and samples that do not hold the frame, and expands the samples to RGBA.
pub fn png_frame_rgba(bytes: &[u8]) -> (r: Result<(u32, u32, Vec<u8>), PngFrameError>)
    ensures
        match spec_png_decode(bytes@) {
            None => r == Err::<(u32, u32, Vec<u8>), PngFrameError>(PngFrameError::Decode),
            Some((w, h, code, depth, data)) => if depth != 8 {
                r == Err::<(u32, u32, Vec<u8>), PngFrameError>(PngFrameError::NotEightBit(depth))
            } else {
                match spec_png_color(code) {
                    None => r == Err::<(u32, u32, Vec<u8>), PngFrameError>(PngFrameError::Decode),
                    Some(c) => if c == PngColorType::Indexed {
                        r == Err::<(u32, u32, Vec<u8>), PngFrameError>(PngFrameError::Indexed)
                    } else if !spec_samples_fit(c, data.len(), (w * h) as nat) {
                        r == Err::<(u32, u32, Vec<u8>), PngFrameError>(PngFrameError::SampleCount)
                    } else {
                        &&& r is Ok
                        &&& r->Ok_0.0 == w
                        &&& r->Ok_0.1 == h
                        &&& r->Ok_0.2@.len() == w * h * 4
                        &&& forall|i: int, k: int|
                            0 <= i < w * h && 0 <= k < 4 ==> #[trigger] r->Ok_0.2@[i * 4 + k]
                                == spec_rgba_sample(c, data, i, k)
                    },
                }
            },
        },
{
    let (w, h, code, depth, data) = match decode_png_first_frame(bytes) {
        Some(f) => f,
        None => {
            return Err(PngFrameError::Decode);
        },
    };
    if depth != 8 {
        return Err(PngFrameError::NotEightBit(depth));
    }
    let color = match png_color(code) {
        Some(c) => c,
        None => {
            return Err(PngFrameError::Decode);
        },
    };
    if color == PngColorType::Indexed {
        return Err(PngFrameError::Indexed);
    }
    assert((w as u64) * (h as u64) <= u64::MAX) by (nonlinear_arith)
        requires
            w <= u32::MAX,
            h <= u32::MAX,
    ;
    let npixels: u64 = (w as u64) * (h as u64);
    if npixels > (usize::MAX / 4) as u64 {
        return Err(PngFrameError::SampleCount);
    }
    let np = npixels as usize;
    let len = data.len();
    let fits = match color {
        PngColorType::Rgba => len == np * 4,
        PngColorType::Rgb => len / 3 >= np,
        PngColorType::GrayscaleAlpha => len / 2 >= np,
        _ => len >= np,
    };
    if !fits {
        return Err(PngFrameError::SampleCount);
    }
    match expand_to_rgba(color, data.as_slice(), np) {
        Some(px) => Ok((w, h, px)),
        None => Err(PngFrameError::Indexed),
    }
}

} // verus!

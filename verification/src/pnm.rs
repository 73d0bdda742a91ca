use vstd::prelude::*;

verus! {

/// A decoded binary PPM (RGB) or PGM (gray) image with 8-bit samples.
#[derive(Debug, Clone, PartialEq, Eq)]
pub enum PnmImage {
    Rgb8 { width: u32, height: u32, data: Vec<u8> },
    Gray8 { width: u32, height: u32, data: Vec<u8> },
}

/// Why a PNM file was refused.
#[derive(Debug, Clone, PartialEq, Eq)]
pub enum PnmError {
    /// The header ended before all its fields.
    UnexpectedEof,
    /// The magic number (given) is neither `P5` nor `P6`.
    UnsupportedMagic(Vec<u8>),
    /// The width is not a decimal `u32`.
    InvalidWidth,
    /// The height is not a decimal `u32`.
    InvalidHeight,
    /// The maximum sample value is not a decimal `u32`.
    InvalidMaxval,
    /// The maximum sample value (given) is not 255.
    UnsupportedMaxval(u32),
    /// Fewer sample bytes than the header announces.
    DataTooShort { expected: u128, got: usize },
}

/// Outcome of parsing a PNM file, as plain values.
pub enum PnmParse {
    Image { channels: nat, width: u32, height: u32, start: int, len: nat },
    Eof,
    Magic(Seq<u8>),
    BadWidth,
    BadHeight,
    BadMaxval,
    Maxval(u32),
    Short { expected: nat, got: nat },
}

/// ASCII whitespace: space, tab, line feed, form feed, carriage return.
pub open spec fn spec_is_ws(c: u8) -> bool {
    c == 32 || c == 9 || c == 10 || c == 12 || c == 13
}

/// Position after the whitespace and `#` comments (to the end of their line)
/// from `i`; `in_comment` when `i` is inside a comment.
pub open spec fn spec_skip(b: Seq<u8>, i: int, in_comment: bool) -> int
    decreases b.len() - i, if in_comment {
        1int
    } else {
        0int
    },
{
    if i >= b.len() || i < 0 {
        i
    } else if in_comment {
        if b[i] == 10 {
            spec_skip(b, i, false)
        } else {
            spec_skip(b, i + 1, true)
        }
    } else if b[i] == 35 {
        spec_skip(b, i + 1, true)
    } else if spec_is_ws(b[i]) {
        spec_skip(b, i + 1, false)
    } else {
        i
    }
}

/// End of the run of non-whitespace bytes from `i`.
pub open spec fn spec_token_end(b: Seq<u8>, i: int) -> int
    decreases b.len() - i,
{
    if 0 <= i < b.len() && !spec_is_ws(b[i]) {
        spec_token_end(b, i + 1)
    } else {
        i
    }
}

/// Start of the header token that follows position `i`.
pub open spec fn spec_tok_start(b: Seq<u8>, i: int) -> int {
    spec_skip(b, i, false)
}

/// End of the header token that follows position `i`.
pub open spec fn spec_tok_end(b: Seq<u8>, i: int) -> int {
    spec_token_end(b, spec_tok_start(b, i))
}

/// Value of a run of decimal digits.
pub open spec fn spec_digits_value(d: Seq<u8>) -> nat
    decreases d.len(),
{
    if d.len() == 0 {
        0
    } else {
        spec_digits_value(d.drop_last()) * 10 + (d.last() - 48) as nat
    }
}

/// All bytes are ASCII digits.
pub open spec fn spec_all_digits(d: Seq<u8>) -> bool {
    forall|k: int| 0 <= k < d.len() ==> 48 <= #[trigger] d[k] <= 57
}

/// A decimal `u32` as Rust reads one: an optional `+`, then one or more
/// digits, with a value that fits.
pub open spec fn spec_parse_u32(t: Seq<u8>) -> Option<u32> {
    let d = if t.len() > 0 && t[0] == 43 {
        t.subrange(1, t.len() as int)
    } else {
        t
    };
    if d.len() > 0 && spec_all_digits(d) && spec_digits_value(d) <= u32::MAX {
        Some(spec_digits_value(d) as u32)
    } else {
        None
    }
}

/// Parse of a binary PGM (`P5`) or PPM (`P6`) file with maximum value 255:
/// the magic, width, height and maximum value as whitespace-separated
/// tokens (with `#` comments between them), one whitespace byte, then
/// `width * height * channels` sample bytes (more may follow).
pub open spec fn spec_pnm(b: Seq<u8>) -> PnmParse {
    let s1 = spec_tok_start(b, 0);
    let e1 = spec_tok_end(b, 0);
    let s2 = spec_tok_start(b, e1);
    let e2 = spec_tok_end(b, e1);
    let s3 = spec_tok_start(b, e2);
    let e3 = spec_tok_end(b, e2);
    let s4 = spec_tok_start(b, e3);
    let e4 = spec_tok_end(b, e3);
    let magic = b.subrange(s1, e1);
    let channels: nat = if magic == seq![80u8, 54u8] {
        3
    } else {
        1
    };
    if s1 >= b.len() {
        PnmParse::Eof
    } else if magic != seq![80u8, 54u8] && magic != seq![80u8, 53u8] {
        PnmParse::Magic(magic)
    } else if s2 >= b.len() {
        PnmParse::Eof
    } else if spec_parse_u32(b.subrange(s2, e2)) is None {
        PnmParse::BadWidth
    } else if s3 >= b.len() {
        PnmParse::Eof
    } else if spec_parse_u32(b.subrange(s3, e3)) is None {
        PnmParse::BadHeight
    } else if s4 >= b.len() {
        PnmParse::Eof
    } else if spec_parse_u32(b.subrange(s4, e4)) is None {
        PnmParse::BadMaxval
    } else if spec_parse_u32(b.subrange(s4, e4))->0 != 255 {
        PnmParse::Maxval(spec_parse_u32(b.subrange(s4, e4))->0)
    } else {
        let start = if e4 < b.len() && spec_is_ws(b[e4]) {
            e4 + 1
        } else {
            e4
        };
        let w = spec_parse_u32(b.subrange(s2, e2))->0;
        let h = spec_parse_u32(b.subrange(s3, e3))->0;
        let expected = w as nat * h as nat * channels;
        if b.len() - start < expected {
            PnmParse::Short { expected, got: (b.len() - start) as nat }
        } else {
            PnmParse::Image { channels, width: w, height: h, start, len: expected }
        }
    }
}

/// `r` is what the parse `p` of `b` says.
pub open spec fn spec_pnm_result(r: Result<PnmImage, PnmError>, p: PnmParse, b: Seq<u8>) -> bool {
    match p {
        PnmParse::Image { channels, width, height, start, len } => match r {
            Ok(PnmImage::Rgb8 { width: w, height: h, data }) => channels == 3 && w == width && h
                == height && data@ == b.subrange(start, start + len),
            Ok(PnmImage::Gray8 { width: w, height: h, data }) => channels == 1 && w == width && h
                == height && data@ == b.subrange(start, start + len),
            Err(_) => false,
        },
        PnmParse::Eof => r matches Err(PnmError::UnexpectedEof),
        PnmParse::Magic(m) => r matches Err(PnmError::UnsupportedMagic(t)) && t@ == m,
        PnmParse::BadWidth => r matches Err(PnmError::InvalidWidth),
        PnmParse::BadHeight => r matches Err(PnmError::InvalidHeight),
        PnmParse::BadMaxval => r matches Err(PnmError::InvalidMaxval),
        PnmParse::Maxval(v) => r matches Err(PnmError::UnsupportedMaxval(x)) && x == v,
        PnmParse::Short { expected, got } => r matches Err(PnmError::DataTooShort { expected: e, got: g })
            && e == expected && g == got,
    }
}

fn is_ws(c: u8) -> (r: bool)
    ensures
        r == spec_is_ws(c),
{
    c == 32 || c == 9 || c == 10 || c == 12 || c == 13
}

proof fn lemma_skip_bounds(b: Seq<u8>, i: int, c: bool)
    requires
        0 <= i <= b.len(),
    ensures
        i <= spec_skip(b, i, c) <= b.len(),
    decreases b.len() - i, if c {
        1int
    } else {
        0int
    },
{
    if i < b.len() {
        if c {
            if b[i] == 10 {
                lemma_skip_bounds(b, i, false);
            } else {
                lemma_skip_bounds(b, i + 1, true);
            }
        } else if b[i] == 35 {
            lemma_skip_bounds(b, i + 1, true);
        } else if spec_is_ws(b[i]) {
            lemma_skip_bounds(b, i + 1, false);
        }
    }
}

proof fn lemma_token_end_bounds(b: Seq<u8>, i: int)
    requires
        0 <= i <= b.len(),
    ensures
        i <= spec_token_end(b, i) <= b.len(),
    decreases b.len() - i,
{
    if i < b.len() && !spec_is_ws(b[i]) {
        lemma_token_end_bounds(b, i + 1);
    }
}

/// Skips whitespace and comments from `i`; returns (start, end) of the next token.
fn next_token(b: &[u8], i: usize) -> (r: (usize, usize))
    requires
        i <= b@.len(),
    ensures
        r.0 == spec_tok_start(b@, i as int),
        r.1 == spec_tok_end(b@, i as int),
        i <= r.0 <= r.1 <= b@.len(),
{
    let len = b.len();
    let mut idx = i;
    let mut in_comment = false;
    proof {
        lemma_skip_bounds(b@, i as int, false);
    }
    while idx < len
        invariant
            i <= idx <= len,
            len == b@.len(),
            spec_skip(b@, idx as int, in_comment) == spec_tok_start(b@, i as int),
        ensures
            idx == spec_tok_start(b@, i as int),
            i <= idx <= len,
        decreases len - idx, if in_comment {
            1int
        } else {
            0int
        },
    {
        let c = b[idx];
        if in_comment {
            if c == 10 {
                in_comment = false;
            } else {
                idx = idx + 1;
            }
        } else if c == 35 {
            in_comment = true;
            idx = idx + 1;
        } else if is_ws(c) {
            idx = idx + 1;
        } else {
            break;
        }
    }
    let start = idx;
    proof {
        lemma_token_end_bounds(b@, start as int);
    }
    while idx < len && !is_ws(b[idx])
        invariant
            start <= idx <= len,
            len == b@.len(),
            spec_token_end(b@, idx as int) == spec_token_end(b@, start as int),
        decreases len - idx,
    {
        idx = idx + 1;
    }
    (start, idx)
}

/// Reads a decimal `u32` from `b[start..end]` as Rust's `str::parse` does.
fn parse_u32_token(b: &[u8], start: usize, end: usize) -> (r: Option<u32>)
    requires
        start <= end <= b@.len(),
    ensures
        r == spec_parse_u32(b@.subrange(start as int, end as int)),
{
    let ghost t = b@.subrange(start as int, end as int);
    let mut k = start;
    if k < end && b[k] == 43 {
        k = k + 1;
    }
    let ghost d = b@.subrange(k as int, end as int);
    assert(d =~= (if t.len() > 0 && t[0] == 43 { t.subrange(1, t.len() as int) } else { t }));
    if k == end {
        return None;
    }
    assert(d.len() > 0);
    let mut value: u64 = 0;
    let mut j = k;
    while j < end
        invariant
            k <= j <= end,
            k < end,
            end <= b@.len(),
            d == b@.subrange(k as int, end as int),
            t == b@.subrange(start as int, end as int),
            d == (if t.len() > 0 && t[0] == 43 { t.subrange(1, t.len() as int) } else { t }),
            spec_all_digits(b@.subrange(k as int, j as int)),
            value == spec_digits_value(b@.subrange(k as int, j as int)),
            value <= u32::MAX,
        decreases end - j,
    {
        let c = b[j];
        assert(b@.subrange(k as int, j + 1).drop_last() =~= b@.subrange(k as int, j as int));
        if c < 48 || c > 57 {
            assert(!spec_all_digits(d)) by {
                assert(d[j - k] == c);
            }
            return None;
        }
        let next = value * 10 + (c - 48) as u64;
        if next > 0xFFFF_FFFF {
            proof {
                if spec_all_digits(d) {
                    lemma_digits_value_monotonic(d, j + 1 - k);
                    assert(d.subrange(0, j + 1 - k) =~= b@.subrange(k as int, j + 1));
                }
            }
            return None;
        }
        value = next;
        j = j + 1;
    }
    assert(b@.subrange(k as int, end as int) =~= d);
    Some(value as u32)
}

proof fn lemma_digits_value_monotonic(d: Seq<u8>, n: int)
    requires
        0 <= n <= d.len(),
        spec_all_digits(d),
    ensures
        spec_digits_value(d.subrange(0, n)) <= spec_digits_value(d),
    decreases d.len() - n,
{
    if n < d.len() {
        lemma_digits_value_monotonic(d, n + 1);
        assert(d.subrange(0, n + 1).drop_last() =~= d.subrange(0, n));
    } else {
        assert(d.subrange(0, n) =~= d);
    }
}

fn copy_range(b: &[u8], start: usize, len: usize) -> (r: Vec<u8>)
    requires
        start + len <= b@.len(),
    ensures
        r@ == b@.subrange(start as int, start + len),
{
    let blen = b.len();
    let mut out: Vec<u8> = Vec::new();
    let mut k: usize = 0;
    while k < len
        invariant
            k <= len,
            blen == b@.len(),
            start + len <= b@.len(),
            out@ =~= b@.subrange(start as int, start + k),
        decreases len - k,
    {
        out.push(b[start + k]);
        k = k + 1;
    }
    out
}

/// Parses a binary PPM (`P6`, RGB) or PGM (`P5`, gray) file with maximum
/// sample value 255, from its bytes.
pub fn parse_pnm(bytes: &[u8]) -> (r: Result<PnmImage, PnmError>)
    ensures
        spec_pnm_result(r, spec_pnm(bytes@), bytes@),
{
    let len = bytes.len();
    let (s1, e1) = next_token(bytes, 0);
    if s1 >= len {
        return Err(PnmError::UnexpectedEof);
    }
    let is_p6 = e1 - s1 == 2 && bytes[s1] == 80 && bytes[s1 + 1] == 54;
    let is_p5 = e1 - s1 == 2 && bytes[s1] == 80 && bytes[s1 + 1] == 53;
    proof {
        let m = bytes@.subrange(s1 as int, e1 as int);
        if is_p6 {
            assert(m =~= seq![80u8, 54u8]);
        } else if m == seq![80u8, 54u8] {
            assert(m[0] == 80 && m[1] == 54);
        }
        if is_p5 {
            assert(m =~= seq![80u8, 53u8]);
        } else if m == seq![80u8, 53u8] {
            assert(m[0] == 80 && m[1] == 53);
        }
    }
    if !is_p6 && !is_p5 {
        return Err(PnmError::UnsupportedMagic(copy_range(bytes, s1, e1 - s1)));
    }
    let channels: u128 = if is_p6 {
        3
    } else {
        1
    };
    let (s2, e2) = next_token(bytes, e1);
    if s2 >= len {
        return Err(PnmError::UnexpectedEof);
    }
    let width = match parse_u32_token(bytes, s2, e2) {
        Some(v) => v,
        None => {
            return Err(PnmError::InvalidWidth);
        },
    };
    let (s3, e3) = next_token(bytes, e2);
    if s3 >= len {
        return Err(PnmError::UnexpectedEof);
    }
    let height = match parse_u32_token(bytes, s3, e3) {
        Some(v) => v,
        None => {
            return Err(PnmError::InvalidHeight);
        },
    };
    let (s4, e4) = next_token(bytes, e3);
    if s4 >= len {
        return Err(PnmError::UnexpectedEof);
    }
    let maxval = match parse_u32_token(bytes, s4, e4) {
        Some(v) => v,
        None => {
            return Err(PnmError::InvalidMaxval);
        },
    };
    if maxval != 255 {
        return Err(PnmError::UnsupportedMaxval(maxval));
    }
    let start = if e4 < len && is_ws(bytes[e4]) {
        e4 + 1
    } else {
        e4
    };
    assert((width as u128) * (height as u128) <= 0xFFFF_FFFF_u128 * 0xFFFF_FFFF_u128) by (nonlinear_arith);
    let expected: u128 = (width as u128) * (height as u128) * channels;
    let remaining = len - start;
    if (remaining as u128) < expected {
        return Err(PnmError::DataTooShort { expected, got: remaining });
    }
    let n = expected as usize;
    let data = copy_range(bytes, start, n);
    if is_p6 {
        Ok(PnmImage::Rgb8 { width, height, data })
    } else {
        Ok(PnmImage::Gray8 { width, height, data })
    }
}

} // verus!

use vstd::prelude::*;
use crate::tokenize::{AcToken, CustomBlockCtx};

verus! {

/// One distribution of a `U32` field: a fixed value, `n` raw bits, or `n`
/// raw bits plus an offset.
#[derive(Debug, Clone, Copy, PartialEq, Eq, Structural)]
pub enum U32 {
    Val(u32),
    Bits(u32),
    BitsOffset { n: u32, off: u32 },
}

/// How a `U32` field is coded: one of four distributions, picked by a
/// two-bit selector.
#[derive(Debug, Clone, Copy, PartialEq, Eq, Structural)]
pub enum U32Coder {
    Select(U32, U32, U32, U32),
}

/// A field of a header, in writing order.
#[allow(inconsistent_fields)]
#[derive(Debug, Clone, PartialEq, Eq)]
pub enum HeaderField {
    /// The `n` low bits of `value`.
    Bits { n: usize, value: u64 },
    /// `value`, coded with `coder`.
    U32 { coder: U32Coder, value: u32 },
    /// A block-context map, coded as a context map.
    ContextMap(Vec<u8>),
    /// Zero bits up to the next byte boundary.
    ZeroPadToByte,
    /// A modular stream of `channels` signed channels of `width` x `height`
    /// samples, channel after channel in raster order.
    ModularStream { width: usize, height: usize, channels: usize, data: Vec<i32> },
    /// The modular stream of a group's HF metadata: the two `cr_w` x `cr_h`
    /// color-correlation channels, the `count` x 2 transform channel and the
    /// `width` x `height` edge-preserving-filter channel, in that order.
    HfMetadataStream {
        cr_w: usize,
        cr_h: usize,
        count: usize,
        width: usize,
        height: usize,
        data: Vec<i32>,
    },
    /// The tokens (context, value) of custom coefficient orders, coded with
    /// a prefix code built for them.
    CoeffOrderTokens(Vec<(usize, u32)>),
    /// The AC histograms over `num_ac_contexts` contexts and the AC tokens
    /// coded with them (ANS when `use_ans`, prefix codes otherwise).
    AcTokens { num_ac_contexts: usize, tokens: Vec<AcToken>, use_ans: bool },
}

/// The coder of the global quantizer scale.
pub open spec fn spec_global_scale_coder() -> U32Coder {
    U32Coder::Select(
        U32::BitsOffset { n: 11, off: 1 },
        U32::BitsOffset { n: 11, off: 2049 },
        U32::BitsOffset { n: 12, off: 4097 },
        U32::BitsOffset { n: 16, off: 8193 },
    )
}

/// The coder of the global quantizer scale.
pub fn global_scale_coder() -> (r: U32Coder)
    ensures
        r == spec_global_scale_coder(),
{
    U32Coder::Select(
        U32::BitsOffset { n: 11, off: 1 },
        U32::BitsOffset { n: 11, off: 2049 },
        U32::BitsOffset { n: 12, off: 4097 },
        U32::BitsOffset { n: 16, off: 8193 },
    )
}

/// The coder of the LF quantizer.
pub open spec fn spec_quant_lf_coder() -> U32Coder {
    U32Coder::Select(
        U32::Val(16),
        U32::BitsOffset { n: 5, off: 1 },
        U32::BitsOffset { n: 8, off: 1 },
        U32::BitsOffset { n: 16, off: 1 },
    )
}

/// The coder of the LF quantizer.
pub fn quant_lf_coder() -> (r: U32Coder)
    ensures
        r == spec_quant_lf_coder(),
{
    U32Coder::Select(
        U32::Val(16),
        U32::BitsOffset { n: 5, off: 1 },
        U32::BitsOffset { n: 8, off: 1 },
        U32::BitsOffset { n: 16, off: 1 },
    )
}

/// The coder of an animation frame's duration.
pub open spec fn spec_duration_coder() -> U32Coder {
    U32Coder::Select(U32::Val(0), U32::Val(1), U32::Bits(8), U32::Bits(32))
}

/// The coder of an animation frame's duration.
pub fn duration_coder() -> (r: U32Coder)
    ensures
        r == spec_duration_coder(),
{
    U32Coder::Select(U32::Val(0), U32::Val(1), U32::Bits(8), U32::Bits(32))
}

/// What a VarDCT frame header says.
pub struct FrameHeaderConfig {
    pub use_gab: bool,
    pub num_extra_channels: u32,
    pub have_animation: bool,
    pub duration: u32,
    pub is_last: bool,
    pub num_passes: u32,
    pub pass_shifts: Vec<u32>,
}

/// The field of `n` bits holding `value`.
pub open spec fn spec_bits(n: usize, value: u64) -> HeaderField {
    HeaderField::Bits { n, value }
}

/// `count` copies of the two-bit field 0.
pub open spec fn spec_zero_pairs(count: nat) -> Seq<HeaderField> {
    Seq::new(count, |i: int| spec_bits(2, 0))
}

/// Number of passes written: at least one.
pub open spec fn spec_num_passes(cfg_passes: u32) -> nat {
    if cfg_passes >= 1 {
        cfg_passes as nat
    } else {
        1
    }
}

/// Shift of pass `i`: the configured one (0 when missing), capped at 3.
pub open spec fn spec_pass_shift_field(shifts: Seq<u32>, i: int) -> u64 {
    let s: u32 = if i < shifts.len() {
        shifts[i]
    } else {
        0
    };
    if s < 3 {
        s as u64
    } else {
        3
    }
}

/// The passes fields: the pass count (two-bit selector for 1, 2, 3, else
/// selector 3 and the count minus 4 in three bits), and for several passes
/// no downsampling and the shift of each pass but the last.
pub open spec fn spec_passes_fields(cfg_passes: u32, shifts: Seq<u32>) -> Seq<HeaderField> {
    let n = spec_num_passes(cfg_passes);
    let count = if n == 1 {
        seq![spec_bits(2, 0)]
    } else if n == 2 {
        seq![spec_bits(2, 1)]
    } else if n == 3 {
        seq![spec_bits(2, 2)]
    } else {
        seq![spec_bits(2, 3), spec_bits(3, (n - 4) as u64)]
    };
    if n == 1 {
        count
    } else {
        count + seq![spec_bits(2, 0)] + Seq::new(
            (n - 1) as nat,
            |i: int| spec_bits(2, spec_pass_shift_field(shifts, i)),
        )
    }
}

/// Leading fields: not all-default, regular frame, VarDCT, no flags,
/// upsampling 1 (also per extra channel), quant-matrix scales 3 and 2.
pub open spec fn spec_header_head(num_extra_channels: u32) -> Seq<HeaderField> {
    seq![spec_bits(1, 0), spec_bits(2, 0), spec_bits(1, 0), spec_bits(2, 0), spec_bits(2, 0)]
        + spec_zero_pairs(num_extra_channels as nat) + seq![spec_bits(3, 3), spec_bits(3, 2)]
}

/// Middle fields: no crop, replace blending (also per extra channel), the
/// duration when animated, the last-frame flag and, for a frame that is
/// not the last, no saved reference.
pub open spec fn spec_header_mid(
    num_extra_channels: u32,
    have_animation: bool,
    duration: u32,
    is_last: bool,
) -> Seq<HeaderField> {
    seq![spec_bits(1, 0), spec_bits(2, 0)] + spec_zero_pairs(num_extra_channels as nat) + (if have_animation {
        seq![HeaderField::U32 { coder: spec_duration_coder(), value: duration }]
    } else {
        Seq::empty()
    }) + seq![
        spec_bits(
            1,
            if is_last {
                1
            } else {
                0
            },
        ),
    ] + (if !is_last {
        seq![spec_bits(2, 0)]
    } else {
        Seq::empty()
    })
}

/// Trailing fields: no name, the restoration filter (Gaborish as
/// configured, default weights, two EPF iterations, default EPF
/// parameters, no extensions) and no frame-header extensions.
pub open spec fn spec_header_tail(use_gab: bool) -> Seq<HeaderField> {
    seq![
        spec_bits(2, 0),
        spec_bits(1, 0),
        spec_bits(
            1,
            if use_gab {
                1
            } else {
                0
            },
        ),
    ] + (if use_gab {
        seq![spec_bits(1, 0)]
    } else {
        Seq::empty()
    }) + seq![
        spec_bits(2, 2),
        spec_bits(1, 0),
        spec_bits(1, 0),
        spec_bits(1, 0),
        spec_bits(2, 0),
        spec_bits(2, 0),
    ]
}

/// The fields of a VarDCT frame header, in order.
pub open spec fn spec_frame_header_fields(
    use_gab: bool,
    num_extra_channels: u32,
    have_animation: bool,
    duration: u32,
    is_last: bool,
    num_passes: u32,
    pass_shifts: Seq<u32>,
) -> Seq<HeaderField> {
    spec_header_head(num_extra_channels) + spec_passes_fields(num_passes, pass_shifts)
        + spec_header_mid(num_extra_channels, have_animation, duration, is_last) + spec_header_tail(
        use_gab,
    )
}

fn push_bits(w: &mut Vec<HeaderField>, n: usize, value: u64)
    ensures
        final(w)@ == old(w)@.push(spec_bits(n, value)),
{
    w.push(HeaderField::Bits { n, value });
}

fn push_zero_pairs(w: &mut Vec<HeaderField>, count: u32)
    ensures
        final(w)@ == old(w)@ + spec_zero_pairs(count as nat),
{
    let ghost start = w@;
    let mut i: u32 = 0;
    while i < count
        invariant
            i <= count,
            w@ =~= start + spec_zero_pairs(i as nat),
        decreases count - i,
    {
        push_bits(w, 2, 0);
        i = i + 1;
    }
}

fn push_head(writer: &mut Vec<HeaderField>, num_extra_channels: u32)
    ensures
        final(writer)@ == old(writer)@ + spec_header_head(num_extra_channels),
{
    let ghost start = writer@;
    push_bits(writer, 1, 0);
    push_bits(writer, 2, 0);
    push_bits(writer, 1, 0);
    push_bits(writer, 2, 0);
    push_bits(writer, 2, 0);
    push_zero_pairs(writer, num_extra_channels);
    push_bits(writer, 3, 3);
    push_bits(writer, 3, 2);
    assert(writer@ =~= start + spec_header_head(num_extra_channels));
}

fn push_passes(writer: &mut Vec<HeaderField>, cfg_passes: u32, pass_shifts: &Vec<u32>)
    ensures
        final(writer)@ == old(writer)@ + spec_passes_fields(cfg_passes, pass_shifts@),
{
    let ghost start = writer@;
    let num_passes = if cfg_passes >= 1 {
        cfg_passes
    } else {
        1
    };
    if num_passes == 1 {
        push_bits(writer, 2, 0);
    } else if num_passes == 2 {
        push_bits(writer, 2, 1);
    } else if num_passes == 3 {
        push_bits(writer, 2, 2);
    } else {
        push_bits(writer, 2, 3);
        push_bits(writer, 3, (num_passes - 4) as u64);
    }
    if num_passes != 1 {
        push_bits(writer, 2, 0);
        let ghost before_shifts = writer@;
        let mut i: u32 = 0;
        while i < num_passes - 1
            invariant
                i <= num_passes - 1,
                num_passes >= 2,
                writer@ =~= before_shifts + Seq::new(
                    i as nat,
                    |t: int| spec_bits(2, spec_pass_shift_field(pass_shifts@, t)),
                ),
            decreases num_passes - 1 - i,
        {
            let s: u32 = if (i as usize) < pass_shifts.len() {
                pass_shifts[i as usize]
            } else {
                0
            };
            let s3: u32 = if s < 3 {
                s
            } else {
                3
            };
            push_bits(writer, 2, s3 as u64);
            i = i + 1;
        }
    }
    assert(writer@ =~= start + spec_passes_fields(cfg_passes, pass_shifts@));
}

fn push_mid(writer: &mut Vec<HeaderField>, num_extra_channels: u32, have_animation: bool, duration: u32, is_last: bool)
    ensures
        final(writer)@ == old(writer)@ + spec_header_mid(num_extra_channels, have_animation, duration, is_last),
{
    let ghost start = writer@;
    push_bits(writer, 1, 0);
    push_bits(writer, 2, 0);
    push_zero_pairs(writer, num_extra_channels);
    if have_animation {
        writer.push(HeaderField::U32 { coder: duration_coder(), value: duration });
    }
    push_bits(
        writer,
        1,
        if is_last {
            1
        } else {
            0
        },
    );
    if !is_last {
        push_bits(writer, 2, 0);
    }
    assert(writer@ =~= start + spec_header_mid(num_extra_channels, have_animation, duration, is_last));
}

fn push_tail(writer: &mut Vec<HeaderField>, use_gab: bool)
    ensures
        final(writer)@ == old(writer)@ + spec_header_tail(use_gab),
{
    let ghost start = writer@;
    push_bits(writer, 2, 0);
    push_bits(writer, 1, 0);
    push_bits(
        writer,
        1,
        if use_gab {
            1
        } else {
            0
        },
    );
    if use_gab {
        push_bits(writer, 1, 0);
    }
    push_bits(writer, 2, 2);
    push_bits(writer, 1, 0);
    push_bits(writer, 1, 0);
    push_bits(writer, 1, 0);
    push_bits(writer, 2, 0);
    push_bits(writer, 2, 0);
    assert(writer@ =~= start + spec_header_tail(use_gab));
}

/// Appends the fields of a VarDCT frame header to `writer`.
pub fn write_vardct_frame_header_full(writer: &mut Vec<HeaderField>, cfg: &FrameHeaderConfig)
    ensures
        final(writer)@ == old(writer)@ + spec_frame_header_fields(
            cfg.use_gab,
            cfg.num_extra_channels,
            cfg.have_animation,
            cfg.duration,
            cfg.is_last,
            cfg.num_passes,
            cfg.pass_shifts@,
        ),
{
    let ghost start = writer@;
    push_head(writer, cfg.num_extra_channels);
    push_passes(writer, cfg.num_passes, &cfg.pass_shifts);
    push_mid(writer, cfg.num_extra_channels, cfg.have_animation, cfg.duration, cfg.is_last);
    push_tail(writer, cfg.use_gab);
    assert(writer@ =~= start + spec_frame_header_fields(
        cfg.use_gab,
        cfg.num_extra_channels,
        cfg.have_animation,
        cfg.duration,
        cfg.is_last,
        cfg.num_passes,
        cfg.pass_shifts@,
    ));
}

/// Layout of a single-pass frame header with `num_extra_channels` extra
/// channels: twenty fields, two more per extra channel, one more each for
/// an animation duration, Gaborish and a frame that is not the last. Right
/// after the colour upsampling field comes one upsampling field per extra
/// channel; after the frame's blending mode comes one blending-mode field
/// (Replace) per extra channel, then the duration when animated, then the
/// last-frame flag.
#[verifier::spinoff_prover]
#[verifier::rlimit(40)]
pub proof fn lemma_single_pass_header_layout(
    use_gab: bool,
    num_extra_channels: u32,
    have_animation: bool,
    duration: u32,
    is_last: bool,
    pass_shifts: Seq<u32>,
)
    ensures
        ({
            let f = spec_frame_header_fields(
                use_gab,
                num_extra_channels,
                have_animation,
                duration,
                is_last,
                1,
                pass_shifts,
            );
            let n = num_extra_channels as int;
            let a: int = if have_animation {
                1
            } else {
                0
            };
            &&& f.len() == 20 + 2 * n + a + (if use_gab {
                1int
            } else {
                0int
            }) + (if is_last {
                0int
            } else {
                1int
            })
            &&& f[4] == spec_bits(2, 0)
            &&& forall|j: int| 0 <= j < n ==> #[trigger] f[5 + j] == spec_bits(2, 0)
            &&& f[5 + n] == spec_bits(3, 3)
            &&& f[6 + n] == spec_bits(3, 2)
            &&& f[7 + n] == spec_bits(2, 0)
            &&& f[8 + n] == spec_bits(1, 0)
            &&& f[9 + n] == spec_bits(2, 0)
            &&& forall|j: int| 0 <= j < n ==> #[trigger] f[10 + n + j] == spec_bits(2, 0)
            &&& have_animation ==> f[10 + 2 * n] == HeaderField::U32 {
                coder: spec_duration_coder(),
                value: duration,
            }
            &&& f[10 + 2 * n + a] == spec_bits(
                1,
                if is_last {
                    1
                } else {
                    0
                },
            )
        }),
{
    let n = num_extra_channels as int;
    let head = spec_header_head(num_extra_channels);
    let passes = spec_passes_fields(1, pass_shifts);
    let mid = spec_header_mid(num_extra_channels, have_animation, duration, is_last);
    let tail = spec_header_tail(use_gab);
    let f = spec_frame_header_fields(use_gab, num_extra_channels, have_animation, duration, is_last, 1, pass_shifts);
    let a: int = if have_animation {
        1
    } else {
        0
    };
    let dur: Seq<HeaderField> = if have_animation {
        seq![HeaderField::U32 { coder: spec_duration_coder(), value: duration }]
    } else {
        Seq::empty()
    };
    let last_tail: Seq<HeaderField> = if !is_last {
        seq![spec_bits(2, 0)]
    } else {
        Seq::empty()
    };
    let flag = seq![
        spec_bits(
            1,
            if is_last {
                1
            } else {
                0
            },
        ),
    ];
    let pre = seq![spec_bits(1, 0), spec_bits(2, 0), spec_bits(1, 0), spec_bits(2, 0), spec_bits(2, 0)];
    let z = spec_zero_pairs(num_extra_channels as nat);
    assert(head == pre + z + seq![spec_bits(3, 3), spec_bits(3, 2)]);
    assert(passes == seq![spec_bits(2, 0)]);
    assert(mid == seq![spec_bits(1, 0), spec_bits(2, 0)] + z + dur + flag + last_tail);
    assert(head.len() == 7 + n);
    assert(mid.len() == 3 + n + a + last_tail.len());
    assert(tail.len() == 9 + (if use_gab {
        1int
    } else {
        0int
    }));
    assert(f == head + passes + mid + tail);
    assert forall|i: int| 0 <= i < head.len() implies #[trigger] f[i] == head[i] by {}
    assert forall|i: int| 0 <= i < mid.len() implies #[trigger] f[8 + n + i] == mid[i] by {}
    assert(f[7 + n] == passes[0]);
    assert forall|j: int| 0 <= j < n implies #[trigger] f[5 + j] == spec_bits(2, 0) by {
        assert(f[5 + j] == head[5 + j]);
        assert(head[5 + j] == z[j]);
    }
    assert forall|j: int| 0 <= j < n implies #[trigger] f[10 + n + j] == spec_bits(2, 0) by {
        assert(f[8 + n + (2 + j)] == mid[2 + j]);
        assert(mid[2 + j] == z[j]);
    }
    assert(f[8 + n + (2 + n + a)] == mid[2 + n + a]);
    assert(mid[2 + n + a] == flag[0]);
    if have_animation {
        assert(f[8 + n + (2 + n)] == mid[2 + n]);
        assert(mid[2 + n] == dur[0]);
    }
    assert(f[5 + n] == head[5 + n]);
    assert(f[6 + n] == head[6 + n]);
    assert(f[8 + n] == mid[0]);
    assert(f[9 + n] == mid[1]);
}

/// Appends the header of a single, last, still VarDCT frame.
pub fn write_vardct_frame_header(writer: &mut Vec<HeaderField>, _width: u32, _height: u32, use_gab: bool)
    ensures
        final(writer)@ == old(writer)@ + spec_frame_header_fields(
            use_gab,
            0,
            false,
            0,
            true,
            1,
            Seq::empty(),
        ),
{
    let cfg = FrameHeaderConfig {
        use_gab,
        num_extra_channels: 0,
        have_animation: false,
        duration: 0,
        is_last: true,
        num_passes: 1,
        pass_shifts: Vec::new(),
    };
    write_vardct_frame_header_full(writer, &cfg);
}

/// Appends the header of an animation frame with the given duration.
pub fn write_vardct_frame_header_animated(
    writer: &mut Vec<HeaderField>,
    _width: u32,
    _height: u32,
    use_gab: bool,
    duration: u32,
    is_last: bool,
)
    ensures
        final(writer)@ == old(writer)@ + spec_frame_header_fields(
            use_gab,
            0,
            true,
            duration,
            is_last,
            1,
            Seq::empty(),
        ),
{
    let cfg = FrameHeaderConfig {
        use_gab,
        num_extra_channels: 0,
        have_animation: true,
        duration,
        is_last,
        num_passes: 1,
        pass_shifts: Vec::new(),
    };
    write_vardct_frame_header_full(writer, &cfg);
}


/// A header field as plain values.
pub enum FieldView {
    Bits { n: usize, value: u64 },
    U32 { coder: U32Coder, value: u32 },
    ContextMap(Seq<u8>),
    ZeroPadToByte,
    ModularStream { width: usize, height: usize, channels: usize, data: Seq<i32> },
    HfMetadataStream {
        cr_w: usize,
        cr_h: usize,
        count: usize,
        width: usize,
        height: usize,
        data: Seq<i32>,
    },
    CoeffOrderTokens(Seq<(usize, u32)>),
    AcTokens { num_ac_contexts: usize, tokens: Seq<AcToken>, use_ans: bool },
}

/// The plain-value view of a field.
pub open spec fn spec_field_view(f: HeaderField) -> FieldView {
    match f {
        HeaderField::Bits { n, value } => FieldView::Bits { n, value },
        HeaderField::U32 { coder, value } => FieldView::U32 { coder, value },
        HeaderField::ContextMap(m) => FieldView::ContextMap(m@),
        HeaderField::ZeroPadToByte => FieldView::ZeroPadToByte,
        HeaderField::ModularStream { width, height, channels, data } => FieldView::ModularStream {
            width,
            height,
            channels,
            data: data@,
        },
        HeaderField::HfMetadataStream { cr_w, cr_h, count, width, height, data } =>
            FieldView::HfMetadataStream { cr_w, cr_h, count, width, height, data: data@ },
        HeaderField::CoeffOrderTokens(t) => FieldView::CoeffOrderTokens(t@),
        HeaderField::AcTokens { num_ac_contexts, tokens, use_ans } => FieldView::AcTokens {
            num_ac_contexts,
            tokens: tokens@,
            use_ans,
        },
    }
}

/// The plain-value views of a list of fields.
pub open spec fn spec_field_views(fields: Seq<HeaderField>) -> Seq<FieldView> {
    fields.map_values(|f: HeaderField| spec_field_view(f))
}

/// The view of the field of `n` bits holding `value`.
pub open spec fn spec_bits_view(n: usize, value: u64) -> FieldView {
    FieldView::Bits { n, value }
}

/// Fields of one quant-field threshold `t`, coded as `t - 1` (0 for 0): a
/// two-bit bucket selector and the value's offset in its bucket, in 2, 3,
/// 5 or 8 bits.
pub open spec fn spec_threshold_fields(t: u32) -> Seq<FieldView> {
    let val: u64 = if t >= 1 {
        (t - 1) as u64
    } else {
        0
    };
    if val < 4 {
        seq![spec_bits_view(2, 0), spec_bits_view(2, val)]
    } else if val < 12 {
        seq![spec_bits_view(2, 1), spec_bits_view(3, (val - 4) as u64)]
    } else if val < 44 {
        seq![spec_bits_view(2, 2), spec_bits_view(5, (val - 12) as u64)]
    } else {
        seq![spec_bits_view(2, 3), spec_bits_view(8, (val - 44) as u64)]
    }
}

/// Fields of the thresholds `t[0..n]`.
pub open spec fn spec_thresholds_fields(t: Seq<u32>, n: int) -> Seq<FieldView>
    decreases n,
{
    if n <= 0 {
        Seq::empty()
    } else {
        spec_thresholds_fields(t, n - 1) + spec_threshold_fields(t[n - 1])
    }
}

/// Fields of the LfGlobal section: default LF quant factors, the quantizer
/// (global scale and LF quant), the block-context map (default, or custom:
/// no LF thresholds for the three channels, the count of quant-field
/// thresholds in four bits, the thresholds and the map), default color
/// correlation, no global tree, an empty modular group header when there is
/// alpha, then padding to a byte.
pub open spec fn spec_lf_global_fields(
    global_scale: u32,
    quant_lf: u32,
    block_ctx: Option<(Seq<u32>, Seq<u8>)>,
    has_alpha: bool,
) -> Seq<FieldView> {
    seq![
        spec_bits_view(1, 1),
        FieldView::U32 { coder: spec_global_scale_coder(), value: global_scale },
        FieldView::U32 { coder: spec_quant_lf_coder(), value: quant_lf },
    ] + match block_ctx {
        Some(b) => seq![
            spec_bits_view(1, 0),
            spec_bits_view(4, 0),
            spec_bits_view(4, 0),
            spec_bits_view(4, 0),
            spec_bits_view(4, b.0.len() as u64),
        ] + spec_thresholds_fields(b.0, b.0.len() as int) + seq![FieldView::ContextMap(b.1)],
        None => seq![spec_bits_view(1, 1)],
    } + seq![spec_bits_view(1, 1), spec_bits_view(1, 0)] + (if has_alpha {
        seq![spec_bits_view(1, 0), spec_bits_view(1, 1), spec_bits_view(2, 0)]
    } else {
        Seq::empty()
    }) + seq![FieldView::ZeroPadToByte]
}

pub(crate) fn push_view(w: &mut Vec<HeaderField>, f: HeaderField)
    ensures
        spec_field_views(final(w)@) == spec_field_views(old(w)@).push(spec_field_view(f)),
{
    let ghost before = w@;
    w.push(f);
    assert(spec_field_views(w@) =~= spec_field_views(before).push(spec_field_view(f)));
}

fn push_threshold(w: &mut Vec<HeaderField>, t: u32)
    ensures
        spec_field_views(final(w)@) == spec_field_views(old(w)@) + spec_threshold_fields(t),
{
    let ghost before = spec_field_views(w@);
    let val: u64 = if t >= 1 {
        (t - 1) as u64
    } else {
        0
    };
    if val < 4 {
        push_view(w, HeaderField::Bits { n: 2, value: 0 });
        push_view(w, HeaderField::Bits { n: 2, value: val });
    } else if val < 12 {
        push_view(w, HeaderField::Bits { n: 2, value: 1 });
        push_view(w, HeaderField::Bits { n: 3, value: val - 4 });
    } else if val < 44 {
        push_view(w, HeaderField::Bits { n: 2, value: 2 });
        push_view(w, HeaderField::Bits { n: 5, value: val - 12 });
    } else {
        push_view(w, HeaderField::Bits { n: 2, value: 3 });
        push_view(w, HeaderField::Bits { n: 8, value: val - 44 });
    }
    assert(spec_field_views(w@) =~= before + spec_threshold_fields(t));
}

fn copy_map(m: &Vec<u8>) -> (r: Vec<u8>)
    ensures
        r@ == m@,
{
    let mut out: Vec<u8> = Vec::new();
    let mut i: usize = 0;
    while i < m.len()
        invariant
            i <= m.len(),
            out@ =~= m@.subrange(0, i as int),
        decreases m.len() - i,
    {
        out.push(m[i]);
        i = i + 1;
    }
    assert(out@ =~= m@);
    out
}

/// The fields of the LfGlobal section.
pub fn encode_lf_global_section(
    global_scale: u32,
    quant_lf: u32,
    block_ctx: Option<&CustomBlockCtx>,
    has_alpha: bool,
) -> (r: Vec<HeaderField>)
    ensures
        spec_field_views(r@) == spec_lf_global_fields(
            global_scale,
            quant_lf,
            match block_ctx {
                Some(b) => Some((b.qf_thresholds@, b.context_map@)),
                None => None,
            },
            has_alpha,
        ),
{
    let mut w: Vec<HeaderField> = Vec::new();
    assert(spec_field_views(w@) =~= Seq::<FieldView>::empty());
    push_view(&mut w, HeaderField::Bits { n: 1, value: 1 });
    push_view(&mut w, HeaderField::U32 { coder: global_scale_coder(), value: global_scale });
    push_view(&mut w, HeaderField::U32 { coder: quant_lf_coder(), value: quant_lf });
    let ghost head = spec_field_views(w@);
    match block_ctx {
        Some(ctx) => {
            push_view(&mut w, HeaderField::Bits { n: 1, value: 0 });
            push_view(&mut w, HeaderField::Bits { n: 4, value: 0 });
            push_view(&mut w, HeaderField::Bits { n: 4, value: 0 });
            push_view(&mut w, HeaderField::Bits { n: 4, value: 0 });
            let num_qf = ctx.qf_thresholds.len();
            push_view(&mut w, HeaderField::Bits { n: 4, value: num_qf as u64 });
            let ghost before = spec_field_views(w@);
            let mut i: usize = 0;
            while i < num_qf
                invariant
                    i <= num_qf,
                    num_qf == ctx.qf_thresholds@.len(),
                    spec_field_views(w@) == before + spec_thresholds_fields(ctx.qf_thresholds@, i as int),
                decreases num_qf - i,
            {
                push_threshold(&mut w, ctx.qf_thresholds[i]);
                assert(before + spec_thresholds_fields(ctx.qf_thresholds@, i + 1) =~= before
                    + spec_thresholds_fields(ctx.qf_thresholds@, i as int) + spec_threshold_fields(
                    ctx.qf_thresholds@[i as int],
                ));
                i = i + 1;
            }
            push_view(&mut w, HeaderField::ContextMap(copy_map(&ctx.context_map)));
        },
        None => {
            push_view(&mut w, HeaderField::Bits { n: 1, value: 1 });
        },
    }
    push_view(&mut w, HeaderField::Bits { n: 1, value: 1 });
    push_view(&mut w, HeaderField::Bits { n: 1, value: 0 });
    if has_alpha {
        push_view(&mut w, HeaderField::Bits { n: 1, value: 0 });
        push_view(&mut w, HeaderField::Bits { n: 1, value: 1 });
        push_view(&mut w, HeaderField::Bits { n: 2, value: 0 });
    }
    push_view(&mut w, HeaderField::ZeroPadToByte);
    assert(spec_field_views(w@) =~= spec_lf_global_fields(
        global_scale,
        quant_lf,
        match block_ctx {
            Some(b) => Some((b.qf_thresholds@, b.context_map@)),
            None => None,
        },
        has_alpha,
    ));
    w
}

} // verus!

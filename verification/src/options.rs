use vstd::prelude::*;

verus! {

/// The encoder's advanced (raw-input and synthetic-stream) options, as
/// plain values: which inputs were named and the modular parameters.
#[derive(Debug, Clone, Copy, PartialEq, Eq, Structural)]
pub struct LegacyOptions {
    pub modular_image: bool,
    pub with_frame_info: bool,
    pub raw_rgb8_input: bool,
    pub raw_gray8_input: bool,
    pub ppm_input: bool,
    pub raw_stride: bool,
    pub modular_offset: i32,
    pub modular_predictor: u32,
}

/// A refused combination of advanced options.
#[derive(Debug, Clone, Copy, PartialEq, Eq, Structural)]
pub enum OptionError {
    /// A modular image and frame information were both asked for.
    ModularImageWithFrameInfo,
    /// Raw RGB and raw gray input were both named.
    RawRgbWithRawGray,
    /// A PPM input was named together with a raw input.
    PpmWithRawInput,
    /// An image input was named together with a synthetic stream.
    ImageInputWithSyntheticStream,
    /// An image input was named together with modular parameters.
    ImageInputWithModularParams,
    /// A row stride was given without a raw input.
    StrideWithoutRawInput,
    /// Modular parameters were given without a modular image.
    ModularParamsWithoutModularImage,
    /// The modular predictor is above 13.
    PredictorOutOfRange,
}

/// The stream the advanced options ask for.
#[derive(Debug, Clone, Copy, PartialEq, Eq, Structural)]
pub enum LegacyMode {
    PpmInput,
    RawRgb8Input,
    RawGray8Input,
    ModularImage,
    FrameInfo,
    HeaderOnly,
}

/// The first rule, in order, that the options break, if any.
pub open spec fn spec_validate(o: LegacyOptions) -> Option<OptionError> {
    let has_raw = o.raw_rgb8_input || o.raw_gray8_input;
    let has_image = has_raw || o.ppm_input;
    let has_params = o.modular_offset != 0 || o.modular_predictor != 0;
    if o.modular_image && o.with_frame_info {
        Some(OptionError::ModularImageWithFrameInfo)
    } else if o.raw_rgb8_input && o.raw_gray8_input {
        Some(OptionError::RawRgbWithRawGray)
    } else if o.ppm_input && has_raw {
        Some(OptionError::PpmWithRawInput)
    } else if has_image && (o.modular_image || o.with_frame_info) {
        Some(OptionError::ImageInputWithSyntheticStream)
    } else if has_image && has_params {
        Some(OptionError::ImageInputWithModularParams)
    } else if o.raw_stride && !has_raw {
        Some(OptionError::StrideWithoutRawInput)
    } else if has_params && !o.modular_image {
        Some(OptionError::ModularParamsWithoutModularImage)
    } else if o.modular_predictor > 13 {
        Some(OptionError::PredictorOutOfRange)
    } else {
        None
    }
}

/// Checks the advanced options, reporting the first rule they break.
pub fn validate_legacy_options(o: &LegacyOptions) -> (r: Result<(), OptionError>)
    ensures
        match spec_validate(*o) {
            Some(e) => r == Err::<(), OptionError>(e),
            None => r is Ok,
        },
{
    let has_raw = o.raw_rgb8_input || o.raw_gray8_input;
    let has_image = has_raw || o.ppm_input;
    let has_params = o.modular_offset != 0 || o.modular_predictor != 0;
    if o.modular_image && o.with_frame_info {
        return Err(OptionError::ModularImageWithFrameInfo);
    }
    if o.raw_rgb8_input && o.raw_gray8_input {
        return Err(OptionError::RawRgbWithRawGray);
    }
    if o.ppm_input && has_raw {
        return Err(OptionError::PpmWithRawInput);
    }
    if has_image && (o.modular_image || o.with_frame_info) {
        return Err(OptionError::ImageInputWithSyntheticStream);
    }
    if has_image && has_params {
        return Err(OptionError::ImageInputWithModularParams);
    }
    if o.raw_stride && !has_raw {
        return Err(OptionError::StrideWithoutRawInput);
    }
    if has_params && !o.modular_image {
        return Err(OptionError::ModularParamsWithoutModularImage);
    }
    if o.modular_predictor > 13 {
        return Err(OptionError::PredictorOutOfRange);
    }
    Ok(())
}

/// The stream the options select: a PPM input first, then raw RGB, raw
/// gray, a modular image, frame information, else the bare header.
pub open spec fn spec_mode(o: LegacyOptions) -> LegacyMode {
    if o.ppm_input {
        LegacyMode::PpmInput
    } else if o.raw_rgb8_input {
        LegacyMode::RawRgb8Input
    } else if o.raw_gray8_input {
        LegacyMode::RawGray8Input
    } else if o.modular_image {
        LegacyMode::ModularImage
    } else if o.with_frame_info {
        LegacyMode::FrameInfo
    } else {
        LegacyMode::HeaderOnly
    }
}

/// Which stream the advanced options select.
pub fn choose_legacy_mode(o: &LegacyOptions) -> (r: LegacyMode)
    ensures
        r == spec_mode(*o),
{
    if o.ppm_input {
        LegacyMode::PpmInput
    } else if o.raw_rgb8_input {
        LegacyMode::RawRgb8Input
    } else if o.raw_gray8_input {
        LegacyMode::RawGray8Input
    } else if o.modular_image {
        LegacyMode::ModularImage
    } else if o.with_frame_info {
        LegacyMode::FrameInfo
    } else {
        LegacyMode::HeaderOnly
    }
}

/// The first frame (after the first) whose size differs from the first
/// frame's, if any.
pub fn first_size_mismatch(sizes: &[(u32, u32)]) -> (r: Option<usize>)
    ensures
        match r {
            None => forall|j: int| 0 <= j < sizes@.len() ==> #[trigger] sizes@[j] == sizes@[0],
            Some(i) => {
                &&& 1 <= i < sizes@.len()
                &&& sizes@[i as int] != sizes@[0]
                &&& forall|j: int| 0 <= j < i ==> #[trigger] sizes@[j] == sizes@[0]
            },
        },
{
    let n = sizes.len();
    if n == 0 {
        return None;
    }
    let first = sizes[0];
    let mut i: usize = 1;
    while i < n
        invariant
            1 <= i <= n,
            n == sizes@.len(),
            first == sizes@[0],
            forall|j: int| 0 <= j < i ==> #[trigger] sizes@[j] == sizes@[0],
        decreases n - i,
    {
        let s = sizes[i];
        if s.0 != first.0 || s.1 != first.1 {
            return Some(i);
        }
        i = i + 1;
    }
    None
}

/// Whether a raw RGBA buffer of `len` bytes holds exactly `width * height`
/// pixels.
pub fn raw_rgba_len_matches(len: usize, width: u32, height: u32) -> (r: bool)
    ensures
        r == (len as int == width as int * height as int * 4),
{
    assert((width as u128) * (height as u128) <= 0xFFFF_FFFF_u128 * 0xFFFF_FFFF_u128) by (nonlinear_arith);
    let expected: u128 = (width as u128) * (height as u128) * 4;
    (len as u128) == expected
}

} // verus!

use jxl::options::{
    choose_legacy_mode, first_size_mismatch, raw_rgba_len_matches, validate_legacy_options,
    LegacyMode, LegacyOptions, OptionError,
};

fn none() -> LegacyOptions {
    LegacyOptions {
        modular_image: false,
        with_frame_info: false,
        raw_rgb8_input: false,
        raw_gray8_input: false,
        ppm_input: false,
        raw_stride: false,
        modular_offset: 0,
        modular_predictor: 0,
    }
}

#[test]
fn option_rules_in_order() {
    assert_eq!(validate_legacy_options(&none()), Ok(()));
    let o = LegacyOptions { modular_image: true, with_frame_info: true, ..none() };
    assert_eq!(validate_legacy_options(&o), Err(OptionError::ModularImageWithFrameInfo));
    let o = LegacyOptions { raw_rgb8_input: true, raw_gray8_input: true, ..none() };
    assert_eq!(validate_legacy_options(&o), Err(OptionError::RawRgbWithRawGray));
    let o = LegacyOptions { ppm_input: true, raw_gray8_input: true, ..none() };
    assert_eq!(validate_legacy_options(&o), Err(OptionError::PpmWithRawInput));
    let o = LegacyOptions { ppm_input: true, with_frame_info: true, ..none() };
    assert_eq!(validate_legacy_options(&o), Err(OptionError::ImageInputWithSyntheticStream));
    let o = LegacyOptions { raw_rgb8_input: true, modular_offset: 3, ..none() };
    assert_eq!(validate_legacy_options(&o), Err(OptionError::ImageInputWithModularParams));
    let o = LegacyOptions { raw_stride: true, ..none() };
    assert_eq!(validate_legacy_options(&o), Err(OptionError::StrideWithoutRawInput));
    let o = LegacyOptions { modular_predictor: 2, ..none() };
    assert_eq!(validate_legacy_options(&o), Err(OptionError::ModularParamsWithoutModularImage));
    let o = LegacyOptions { modular_image: true, modular_predictor: 14, ..none() };
    assert_eq!(validate_legacy_options(&o), Err(OptionError::PredictorOutOfRange));
    let o = LegacyOptions { modular_image: true, modular_predictor: 13, modular_offset: -4, ..none() };
    assert_eq!(validate_legacy_options(&o), Ok(()));
}

#[test]
fn modes_in_order() {
    assert_eq!(choose_legacy_mode(&none()), LegacyMode::HeaderOnly);
    assert_eq!(choose_legacy_mode(&LegacyOptions { with_frame_info: true, ..none() }), LegacyMode::FrameInfo);
    assert_eq!(choose_legacy_mode(&LegacyOptions { modular_image: true, ..none() }), LegacyMode::ModularImage);
    assert_eq!(choose_legacy_mode(&LegacyOptions { raw_gray8_input: true, ..none() }), LegacyMode::RawGray8Input);
    assert_eq!(choose_legacy_mode(&LegacyOptions { raw_rgb8_input: true, ..none() }), LegacyMode::RawRgb8Input);
    assert_eq!(choose_legacy_mode(&LegacyOptions { ppm_input: true, raw_rgb8_input: true, ..none() }), LegacyMode::PpmInput);
}

#[test]
fn frame_size_checks() {
    assert_eq!(first_size_mismatch(&[]), None);
    assert_eq!(first_size_mismatch(&[(3, 4), (3, 4)]), None);
    assert_eq!(first_size_mismatch(&[(3, 4), (3, 4), (4, 3), (5, 5)]), Some(2));
}

#[test]
fn raw_rgba_size() {
    assert!(raw_rgba_len_matches(24, 2, 3));
    assert!(!raw_rgba_len_matches(23, 2, 3));
    assert!(!raw_rgba_len_matches(0, u32::MAX, u32::MAX));
    assert!(raw_rgba_len_matches(0, 0, 7));
}

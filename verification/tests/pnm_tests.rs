use jxl::pixels::{expand_to_rgba, gray_to_rgb, split_rgba, PngColorType};
use jxl::pnm::{parse_pnm, PnmError, PnmImage};

#[test]
fn parses_ppm_with_comments() {
    let mut bytes = b"P6\n# a comment\n2 1\n255\n".to_vec();
    bytes.extend_from_slice(&[1, 2, 3, 4, 5, 6, 7]);
    assert_eq!(
        parse_pnm(&bytes),
        Ok(PnmImage::Rgb8 { width: 2, height: 1, data: vec![1, 2, 3, 4, 5, 6] })
    );
}

#[test]
fn parses_pgm() {
    let bytes = b"P5 3 2 255 abcdef".to_vec();
    assert_eq!(
        parse_pnm(&bytes),
        Ok(PnmImage::Gray8 { width: 3, height: 2, data: b"abcdef".to_vec() })
    );
}

#[test]
fn only_one_whitespace_byte_follows_maxval() {
    let bytes = b"P5 1 1 255\n\n".to_vec();
    assert_eq!(parse_pnm(&bytes), Ok(PnmImage::Gray8 { width: 1, height: 1, data: vec![10] }));
}

#[test]
fn numbers_accept_plus_and_leading_zeros() {
    let bytes = b"P5 +1 0001 255 x".to_vec();
    assert_eq!(parse_pnm(&bytes), Ok(PnmImage::Gray8 { width: 1, height: 1, data: vec![b'x'] }));
}

#[test]
fn pnm_errors() {
    assert_eq!(parse_pnm(b""), Err(PnmError::UnexpectedEof));
    assert_eq!(parse_pnm(b"  # only a comment"), Err(PnmError::UnexpectedEof));
    assert_eq!(parse_pnm(b"P3 1 1 255 x"), Err(PnmError::UnsupportedMagic(b"P3".to_vec())));
    assert_eq!(parse_pnm(b"P6"), Err(PnmError::UnexpectedEof));
    assert_eq!(parse_pnm(b"P6 -1 1 255 x"), Err(PnmError::InvalidWidth));
    assert_eq!(parse_pnm(b"P6 + 1 255 x"), Err(PnmError::InvalidWidth));
    assert_eq!(parse_pnm(b"P6 4294967296 1 255 x"), Err(PnmError::InvalidWidth));
    assert_eq!(parse_pnm(b"P6 1 1x 255 x"), Err(PnmError::InvalidHeight));
    assert_eq!(parse_pnm(b"P6 1 1 "), Err(PnmError::UnexpectedEof));
    assert_eq!(parse_pnm(b"P6 1 1 abc x"), Err(PnmError::InvalidMaxval));
    assert_eq!(parse_pnm(b"P6 1 1 65535 x"), Err(PnmError::UnsupportedMaxval(65535)));
    assert_eq!(
        parse_pnm(b"P6 2 2 255 abc"),
        Err(PnmError::DataTooShort { expected: 12, got: 3 })
    );
    assert_eq!(
        parse_pnm(b"P6 4294967295 4294967295 255 abc"),
        Err(PnmError::DataTooShort { expected: 4294967295u128 * 4294967295u128 * 3, got: 3 })
    );
}

#[test]
fn gray_expands_to_rgb() {
    assert_eq!(gray_to_rgb(&[1, 200]), vec![1, 1, 1, 200, 200, 200]);
    assert!(gray_to_rgb(&[]).is_empty());
}

#[test]
fn png_layouts_expand_to_rgba() {
    assert_eq!(expand_to_rgba(PngColorType::Rgba, &[1, 2, 3, 4], 1), Some(vec![1, 2, 3, 4]));
    assert_eq!(expand_to_rgba(PngColorType::Rgb, &[1, 2, 3, 4, 5, 6], 2), Some(vec![1, 2, 3, 255, 4, 5, 6, 255]));
    assert_eq!(expand_to_rgba(PngColorType::Grayscale, &[9, 8], 2), Some(vec![9, 9, 9, 255, 8, 8, 8, 255]));
    assert_eq!(expand_to_rgba(PngColorType::GrayscaleAlpha, &[9, 7], 1), Some(vec![9, 9, 9, 7]));
    assert_eq!(expand_to_rgba(PngColorType::Indexed, &[0], 1), None);
}

#[test]
fn rgba_splits_into_rgb_and_alpha() {
    let rgba = [1u8, 2, 3, 4, 5, 6, 7, 8];
    let (rgb, alpha) = split_rgba(&rgba, 2);
    assert_eq!(rgb, vec![1, 2, 3, 5, 6, 7]);
    assert_eq!(alpha, vec![4, 8]);
    assert_eq!(split_rgba(&[], 0), (vec![], vec![]));
}

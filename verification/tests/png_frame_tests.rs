use jxl::pixels::{png_frame_rgba, PngFrameError};

fn encode_png(width: u32, height: u32, color: png::ColorType, depth: png::BitDepth, data: &[u8]) -> Vec<u8> {
    let mut out = Vec::new();
    {
        let mut enc = png::Encoder::new(&mut out, width, height);
        enc.set_color(color);
        enc.set_depth(depth);
        if color == png::ColorType::Indexed {
            enc.set_palette(vec![10u8, 20, 30, 40, 50, 60]);
        }
        let mut writer = enc.write_header().unwrap();
        writer.write_image_data(data).unwrap();
    }
    out
}

#[test]
fn rgb_frame_becomes_opaque_rgba() {
    let bytes = encode_png(2, 1, png::ColorType::Rgb, png::BitDepth::Eight, &[1, 2, 3, 4, 5, 6]);
    let (w, h, px) = png_frame_rgba(&bytes).unwrap();
    assert_eq!((w, h), (2, 1));
    assert_eq!(px, vec![1, 2, 3, 255, 4, 5, 6, 255]);
}

#[test]
fn gray_alpha_and_rgba_frames() {
    let bytes = encode_png(2, 1, png::ColorType::GrayscaleAlpha, png::BitDepth::Eight, &[7, 8, 9, 10]);
    assert_eq!(png_frame_rgba(&bytes).unwrap().2, vec![7, 7, 7, 8, 9, 9, 9, 10]);
    let bytes = encode_png(1, 1, png::ColorType::Rgba, png::BitDepth::Eight, &[1, 2, 3, 4]);
    assert_eq!(png_frame_rgba(&bytes).unwrap(), (1, 1, vec![1, 2, 3, 4]));
}

#[test]
fn palette_and_sixteen_bit_frames_are_expanded_to_eight_bits() {
    let bytes = encode_png(2, 1, png::ColorType::Indexed, png::BitDepth::Eight, &[1, 0]);
    assert_eq!(png_frame_rgba(&bytes).unwrap().2, vec![40, 50, 60, 255, 10, 20, 30, 255]);
    let bytes = encode_png(1, 1, png::ColorType::Grayscale, png::BitDepth::Sixteen, &[0xab, 0xcd]);
    assert_eq!(png_frame_rgba(&bytes).unwrap().2, vec![0xab, 0xab, 0xab, 255]);
}

#[test]
fn bytes_that_are_not_png_are_refused() {
    assert_eq!(png_frame_rgba(b"not a png"), Err(PngFrameError::Decode));
    assert_eq!(png_frame_rgba(&[]), Err(PngFrameError::Decode));
}

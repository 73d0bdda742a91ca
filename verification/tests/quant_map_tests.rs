use jxl::quant_map::{boost_quant_on_alpha_edges, quantize_alpha_for_lossy_step};

#[test]
fn alpha_quantization_rounds_to_step() {
    let alpha = vec![0u8, 255, 1, 7, 8, 100, 254, 250];
    assert_eq!(quantize_alpha_for_lossy_step(&alpha, 1), alpha);
    assert_eq!(
        quantize_alpha_for_lossy_step(&alpha, 16),
        vec![0u8, 255, 1, 1, 16, 96, 254, 254]
    );
}

#[test]
fn mixed_alpha_blocks_get_finer_quant() {
    // 16x8 image: left block mixes 0 and 128 alpha, right block is opaque.
    let (width, height) = (16usize, 8usize);
    let mut alpha = vec![255u8; width * height];
    for y in 0..8 {
        for x in 0..8 {
            alpha[y * width + x] = if x < 4 { 0 } else { 128 };
        }
    }
    let mut quant = vec![10u8, 100];
    boost_quant_on_alpha_edges(&mut quant, &alpha, width, height, 2, 1);
    assert_eq!(quant, vec![30, 100]);

    let mut quant = vec![200u8, 100];
    boost_quant_on_alpha_edges(&mut quant, &alpha, width, height, 2, 1);
    assert_eq!(quant, vec![255, 100]);
}

#[test]
fn fully_transparent_block_is_not_boosted() {
    let alpha = vec![0u8; 64];
    let mut quant = vec![10u8];
    boost_quant_on_alpha_edges(&mut quant, &alpha, 8, 8, 1, 1);
    assert_eq!(quant, vec![10]);
}

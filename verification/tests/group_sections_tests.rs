use jxl::coeff_order::{compute_optimal_coeff_orders_8x8, natural_coeff_order_8x8, permutation_tokens};
use jxl::error::Error;
use jxl::group_sections::{build_hf_metadata, count_num_bits, encode_lf_group_section, encode_single_group_section};
use jxl::header::{global_scale_coder, quant_lf_coder, HeaderField};
use jxl::tokenize::tokenize_hf_region;

fn bits(n: usize, value: u64) -> HeaderField {
    HeaderField::Bits { n, value }
}

#[test]
fn count_field_widths() {
    assert_eq!(count_num_bits(0), 0);
    assert_eq!(count_num_bits(1), 0);
    assert_eq!(count_num_bits(2), 1);
    assert_eq!(count_num_bits(4), 2);
    assert_eq!(count_num_bits(5), 3);
    assert_eq!(count_num_bits(1024), 10);
    assert_eq!(count_num_bits(65536), 16);
}

#[test]
fn lf_group_section_of_one_block() {
    let fields = encode_lf_group_section(0, 0, 1, 1, 256, &[5], &[6], &[7], &[3], &[0x80], &[1], &[2]);
    assert_eq!(
        fields,
        vec![
            bits(2, 0),
            HeaderField::ModularStream { width: 1, height: 1, channels: 3, data: vec![5, 6, 7] },
            HeaderField::HfMetadataStream {
                cr_w: 1,
                cr_h: 1,
                count: 1,
                width: 1,
                height: 1,
                data: vec![1, 2, 0, 2, 4],
            },
            HeaderField::ZeroPadToByte,
        ]
    );
}

#[test]
fn lf_group_section_of_a_dct16() {
    let map = [0x84u8, 0x04, 0x04, 0x04];
    let quant = [5u8, 1, 1, 1];
    let fields = encode_lf_group_section(
        0, 0, 2, 2, 256, &[1, 2, 3, 4], &[5, 6, 7, 8], &[9, 10, 11, 12], &quant, &map, &[-3], &[7],
    );
    assert_eq!(
        fields,
        vec![
            bits(2, 0),
            HeaderField::ModularStream {
                width: 2,
                height: 2,
                channels: 3,
                data: vec![1, 2, 3, 4, 5, 6, 7, 8, 9, 10, 11, 12],
            },
            bits(2, 0),
            HeaderField::HfMetadataStream {
                cr_w: 1,
                cr_h: 1,
                count: 1,
                width: 2,
                height: 2,
                data: vec![-3, 7, 4, 4, 4, 4, 4, 4],
            },
            HeaderField::ZeroPadToByte,
        ]
    );
}

#[test]
fn lf_group_section_takes_its_own_rectangle() {
    // A 3x2-block frame cut into groups of 2 blocks: group (1, 0) is the last column.
    let map = [0x80u8; 6];
    let quant = [1u8, 2, 3, 4, 5, 6];
    let dc: Vec<i32> = (0..6).collect();
    let fields = encode_lf_group_section(1, 0, 3, 2, 2, &dc, &dc, &dc, &quant, &map, &[9], &[8]);
    assert_eq!(
        fields,
        vec![
            bits(2, 0),
            HeaderField::ModularStream { width: 1, height: 2, channels: 3, data: vec![2, 5, 2, 5, 2, 5] },
            bits(1, 1),
            HeaderField::HfMetadataStream {
                cr_w: 1,
                cr_h: 1,
                count: 2,
                width: 1,
                height: 2,
                data: vec![9, 8, 0, 0, 2, 5, 4, 4],
            },
            HeaderField::ZeroPadToByte,
        ]
    );
}

#[test]
fn hf_metadata_lists_transforms_and_quant() {
    let map = [0x80u8, 0x81, 0x82, 0x83];
    let quant = [0u8, 1, 2, 3];
    let (data, count) = build_hf_metadata(&map, &quant, &[4], &[5], 2, 0, 0, 2, 2);
    assert_eq!(count, 4);
    assert_eq!(data, vec![4, 5, 0, 1, 2, 3, 0, 0, 1, 2, 4, 4, 4, 4]);
}

fn single_block_inputs() -> (Vec<i32>, Vec<i32>, Vec<i32>) {
    (vec![0i32; 64], vec![0i32; 64], vec![0i32; 64])
}

#[test]
fn single_group_section_with_natural_orders() {
    let (ac_x, ac_y, ac_b) = single_block_inputs();
    let map = [0x80u8];
    let r = encode_single_group_section(
        1, 1, 8, 8, 100, 16, &[5], &[6], &[7], &ac_x, &ac_y, &ac_b, &[3], &map, &[1], &[2], None, 7,
    )
    .unwrap();
    let tokens = tokenize_hf_region(&ac_x, &ac_y, &ac_b, &map, 1, 0, 0, 1, 1, 15, 0, None, None, None).unwrap();
    assert_eq!(tokens.len(), 3);
    assert_eq!(
        r,
        vec![
            bits(1, 1),
            HeaderField::U32 { coder: global_scale_coder(), value: 100 },
            HeaderField::U32 { coder: quant_lf_coder(), value: 16 },
            bits(1, 1),
            bits(1, 1),
            bits(1, 0),
            bits(2, 0),
            HeaderField::ModularStream { width: 1, height: 1, channels: 3, data: vec![5, 6, 7] },
            HeaderField::HfMetadataStream {
                cr_w: 1,
                cr_h: 1,
                count: 1,
                width: 1,
                height: 1,
                data: vec![1, 2, 0, 2, 4],
            },
            bits(1, 1),
            bits(2, 2),
            HeaderField::AcTokens { num_ac_contexts: 7425, tokens, use_ans: true },
            HeaderField::ZeroPadToByte,
        ]
    );
}

#[test]
fn single_group_section_with_custom_orders_and_alpha() {
    let (ac_x, mut ac_y, ac_b) = single_block_inputs();
    ac_y[8] = 3;
    let map = [0x80u8];
    let orders = compute_optimal_coeff_orders_8x8(&ac_y, &ac_x, &ac_b, &map, 1, 0, 0, 1, 1);
    assert_ne!(orders, [natural_coeff_order_8x8(); 3]);
    let alpha = [255u8, 0, 128];
    let r = encode_single_group_section(
        1, 1, 3, 1, 100, 16, &[5], &[6], &[7], &ac_x, &ac_y, &ac_b, &[3], &map, &[1], &[2], Some(&alpha), 6,
    )
    .unwrap();
    let tokens =
        tokenize_hf_region(&ac_x, &ac_y, &ac_b, &map, 1, 0, 0, 1, 1, 15, 0, Some(&orders), None, None).unwrap();
    let order_tokens = permutation_tokens(&[orders[1], orders[0], orders[2]]);
    assert_eq!(r[6], HeaderField::ModularStream { width: 3, height: 1, channels: 1, data: vec![255, 0, 128] });
    assert_eq!(r.len(), 16);
    assert_eq!(r[10], bits(1, 1));
    assert_eq!(r[11], bits(2, 3));
    assert_eq!(r[12], bits(13, 1));
    assert_eq!(r[13], HeaderField::CoeffOrderTokens(order_tokens));
    assert_eq!(r[14], HeaderField::AcTokens { num_ac_contexts: 7425, tokens, use_ans: true });
    // Below effort 6 the zigzag is kept.
    let low = encode_single_group_section(
        1, 1, 3, 1, 100, 16, &[5], &[6], &[7], &ac_x, &ac_y, &ac_b, &[3], &map, &[1], &[2], None, 5,
    )
    .unwrap();
    assert_eq!(low[10], bits(2, 2));
}

#[test]
fn single_group_section_reports_unknown_transform() {
    let (ac_x, ac_y, ac_b) = single_block_inputs();
    let r = encode_single_group_section(
        1, 1, 8, 8, 100, 16, &[5], &[6], &[7], &ac_x, &ac_y, &ac_b, &[3], &[0x80 | 30], &[1], &[2], None, 7,
    );
    assert_eq!(r, Err(Error::InvalidVarDCTTransform(30)));
}

use jxl::transform::{
    block_shape_id, canonical_transform_for_shape_id, covered_blocks_x, covered_blocks_y,
    is_special_8x8_transform_id, is_supported_nonzero_transform_id, rectangular_transform_index,
    special_8x8_transform_index, split_transform_entry, square_transform_index, HfTransformType,
    DCT16_TRANSFORM_ID, DCT32_TRANSFORM_ID, DCT8_TRANSFORM_ID, TRANSFORM_FIRST_BLOCK_FLAG,
};

#[test]
fn test_supported_nonzero_transform_ids_cover_all_non_dct8_strategies() {
    for id in 1u8..=26u8 {
        assert!(
            is_supported_nonzero_transform_id(id),
            "transform id {} should be supported in non-zero path",
            id
        );
    }
    assert!(!is_supported_nonzero_transform_id(DCT8_TRANSFORM_ID));
}

#[test]
fn test_canonical_transform_for_shape_id_mapping() {
    assert_eq!(canonical_transform_for_shape_id(0), Some(HfTransformType::DCT));
    assert_eq!(canonical_transform_for_shape_id(1), Some(HfTransformType::AFV0));
    assert_eq!(canonical_transform_for_shape_id(4), Some(HfTransformType::DCT8X16));
    assert_eq!(canonical_transform_for_shape_id(5), Some(HfTransformType::DCT8X32));
    assert_eq!(canonical_transform_for_shape_id(6), Some(HfTransformType::DCT16X32));
    assert_eq!(canonical_transform_for_shape_id(12), Some(HfTransformType::DCT128X256));
    assert_eq!(canonical_transform_for_shape_id(13), None);
}

#[test]
fn ids_past_the_last_transform_are_unsupported() {
    assert!(!is_supported_nonzero_transform_id(27));
    assert!(!is_supported_nonzero_transform_id(127));
    assert_eq!(HfTransformType::from_usize(27), None);
    assert_eq!(HfTransformType::from_usize(26), Some(HfTransformType::DCT128X256));
}

#[test]
fn transform_entries_split_into_flag_and_id() {
    assert_eq!(split_transform_entry(TRANSFORM_FIRST_BLOCK_FLAG | 7), (true, 7));
    assert_eq!(split_transform_entry(7), (false, 7));
    assert_eq!(split_transform_entry(0x80), (true, 0));
    assert_eq!(split_transform_entry(0xff), (true, 127));
}

#[test]
fn covered_blocks_and_shapes() {
    assert_eq!((covered_blocks_x(HfTransformType::DCT16X8), covered_blocks_y(HfTransformType::DCT16X8)), (1, 2));
    assert_eq!((covered_blocks_x(HfTransformType::DCT8X16), covered_blocks_y(HfTransformType::DCT8X16)), (2, 1));
    assert_eq!((covered_blocks_x(HfTransformType::DCT256X128), covered_blocks_y(HfTransformType::DCT256X128)), (16, 32));
    assert_eq!(block_shape_id(HfTransformType::DCT16X8), block_shape_id(HfTransformType::DCT8X16));
    assert_eq!(block_shape_id(HfTransformType::IDENTITY), 1);
    assert_eq!(block_shape_id(HfTransformType::DCT128X256), 12);
    for id in 0..27usize {
        let t = HfTransformType::from_usize(id).unwrap();
        let shape = block_shape_id(t) as usize;
        let canonical = canonical_transform_for_shape_id(shape).unwrap();
        assert_eq!(
            covered_blocks_x(canonical) * covered_blocks_y(canonical),
            covered_blocks_x(t) * covered_blocks_y(t)
        );
    }
}

#[test]
fn transform_table_indices() {
    assert_eq!(square_transform_index(DCT16_TRANSFORM_ID), Some((0, HfTransformType::DCT16X16)));
    assert_eq!(square_transform_index(DCT32_TRANSFORM_ID), Some((1, HfTransformType::DCT32X32)));
    assert_eq!(square_transform_index(6), None);
    assert_eq!(rectangular_transform_index(6), Some((0, HfTransformType::DCT16X8)));
    assert_eq!(rectangular_transform_index(11), Some((5, HfTransformType::DCT16X32)));
    assert_eq!(rectangular_transform_index(12), None);
    assert_eq!(special_8x8_transform_index(1), Some((0, HfTransformType::IDENTITY)));
    assert!(is_special_8x8_transform_id(17));
    assert!(!is_special_8x8_transform_id(4));
}

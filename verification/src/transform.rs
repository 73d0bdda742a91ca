use vstd::prelude::*;

verus! {

/// Flag set on the transform-map entry of the top-left block of a transform.
pub const TRANSFORM_FIRST_BLOCK_FLAG: u8 = 0x80;
pub const DCT8_TRANSFORM_ID: u8 = 0;
pub const IDENTITY_TRANSFORM_ID: u8 = 1;
pub const DCT2X2_TRANSFORM_ID: u8 = 2;
pub const DCT4X4_TRANSFORM_ID: u8 = 3;
pub const DCT16_TRANSFORM_ID: u8 = 4;
pub const DCT32_TRANSFORM_ID: u8 = 5;
pub const DCT16X8_TRANSFORM_ID: u8 = 6;
pub const DCT8X16_TRANSFORM_ID: u8 = 7;
pub const DCT32X8_TRANSFORM_ID: u8 = 8;
pub const DCT8X32_TRANSFORM_ID: u8 = 9;
pub const DCT32X16_TRANSFORM_ID: u8 = 10;
pub const DCT16X32_TRANSFORM_ID: u8 = 11;
pub const DCT4X8_TRANSFORM_ID: u8 = 12;
pub const DCT8X4_TRANSFORM_ID: u8 = 13;
pub const AFV0_TRANSFORM_ID: u8 = 14;
pub const AFV1_TRANSFORM_ID: u8 = 15;
pub const AFV2_TRANSFORM_ID: u8 = 16;
pub const AFV3_TRANSFORM_ID: u8 = 17;
pub const DCT64_TRANSFORM_ID: u8 = 18;
pub const DCT64X32_TRANSFORM_ID: u8 = 19;
pub const DCT32X64_TRANSFORM_ID: u8 = 20;
pub const DCT128_TRANSFORM_ID: u8 = 21;
pub const DCT128X64_TRANSFORM_ID: u8 = 22;
pub const DCT64X128_TRANSFORM_ID: u8 = 23;
pub const DCT256_TRANSFORM_ID: u8 = 24;
pub const DCT256X128_TRANSFORM_ID: u8 = 25;
pub const DCT128X256_TRANSFORM_ID: u8 = 26;

/// Transform-map entry of a DCT8x8 block (its own first block).
pub const DCT8_FIRST_BLOCK_ENTRY: u8 = 0x80;

/// Whether a transform-map entry marks the top-left block of a transform.
pub open spec fn spec_is_first_block(raw: u8) -> bool {
    raw >= 128
}

/// The transform id stored in a transform-map entry.
pub open spec fn spec_entry_id(raw: u8) -> u8 {
    (raw % 128) as u8
}

/// Reads the first-block flag and the transform id of a transform-map entry.
pub fn split_transform_entry(raw: u8) -> (r: (bool, u8))
    ensures
        r.0 == spec_is_first_block(raw),
        r.1 == spec_entry_id(raw),
{
    let first = raw & TRANSFORM_FIRST_BLOCK_FLAG != 0;
    let id = raw & !TRANSFORM_FIRST_BLOCK_FLAG;
    assert((raw & 0x80u8 != 0) == (raw >= 128) && raw & !0x80u8 == raw % 128) by (bit_vector);
    (first, id)
}

/// Number of distinct transform types of the VarDCT mode.
pub const NUM_TRANSFORM_TYPES: usize = 27;

/// The 27 VarDCT transform types, in the order of their ids.
/// A name `DCTaXb` covers `a` pixels vertically and `b` pixels horizontally.
#[allow(non_camel_case_types)]
#[derive(Debug, Clone, Copy, PartialEq, Eq, Structural)]
pub enum HfTransformType {
    DCT,
    IDENTITY,
    DCT2X2,
    DCT4X4,
    DCT16X16,
    DCT32X32,
    DCT16X8,
    DCT8X16,
    DCT32X8,
    DCT8X32,
    DCT32X16,
    DCT16X32,
    DCT4X8,
    DCT8X4,
    AFV0,
    AFV1,
    AFV2,
    AFV3,
    DCT64X64,
    DCT64X32,
    DCT32X64,
    DCT128X128,
    DCT128X64,
    DCT64X128,
    DCT256X256,
    DCT256X128,
    DCT128X256,
}

/// The id of a transform type (its position in the list of types).
pub open spec fn spec_transform_id(t: HfTransformType) -> nat {
    match t {
        HfTransformType::DCT => 0,
        HfTransformType::IDENTITY => 1,
        HfTransformType::DCT2X2 => 2,
        HfTransformType::DCT4X4 => 3,
        HfTransformType::DCT16X16 => 4,
        HfTransformType::DCT32X32 => 5,
        HfTransformType::DCT16X8 => 6,
        HfTransformType::DCT8X16 => 7,
        HfTransformType::DCT32X8 => 8,
        HfTransformType::DCT8X32 => 9,
        HfTransformType::DCT32X16 => 10,
        HfTransformType::DCT16X32 => 11,
        HfTransformType::DCT4X8 => 12,
        HfTransformType::DCT8X4 => 13,
        HfTransformType::AFV0 => 14,
        HfTransformType::AFV1 => 15,
        HfTransformType::AFV2 => 16,
        HfTransformType::AFV3 => 17,
        HfTransformType::DCT64X64 => 18,
        HfTransformType::DCT64X32 => 19,
        HfTransformType::DCT32X64 => 20,
        HfTransformType::DCT128X128 => 21,
        HfTransformType::DCT128X64 => 22,
        HfTransformType::DCT64X128 => 23,
        HfTransformType::DCT256X256 => 24,
        HfTransformType::DCT256X128 => 25,
        HfTransformType::DCT128X256 => 26,
    }
}

/// Number of 8x8 blocks a transform covers horizontally.
pub open spec fn spec_covered_x(t: HfTransformType) -> nat {
    match t {
        HfTransformType::DCT16X16 => 2,
        HfTransformType::DCT32X32 => 4,
        HfTransformType::DCT16X8 => 1,
        HfTransformType::DCT8X16 => 2,
        HfTransformType::DCT32X8 => 1,
        HfTransformType::DCT8X32 => 4,
        HfTransformType::DCT32X16 => 2,
        HfTransformType::DCT16X32 => 4,
        HfTransformType::DCT64X64 => 8,
        HfTransformType::DCT64X32 => 4,
        HfTransformType::DCT32X64 => 8,
        HfTransformType::DCT128X128 => 16,
        HfTransformType::DCT128X64 => 8,
        HfTransformType::DCT64X128 => 16,
        HfTransformType::DCT256X256 => 32,
        HfTransformType::DCT256X128 => 16,
        HfTransformType::DCT128X256 => 32,
        _ => 1,
    }
}

/// Number of 8x8 blocks a transform covers vertically.
pub open spec fn spec_covered_y(t: HfTransformType) -> nat {
    match t {
        HfTransformType::DCT16X16 => 2,
        HfTransformType::DCT32X32 => 4,
        HfTransformType::DCT16X8 => 2,
        HfTransformType::DCT8X16 => 1,
        HfTransformType::DCT32X8 => 4,
        HfTransformType::DCT8X32 => 1,
        HfTransformType::DCT32X16 => 4,
        HfTransformType::DCT16X32 => 2,
        HfTransformType::DCT64X64 => 8,
        HfTransformType::DCT64X32 => 8,
        HfTransformType::DCT32X64 => 4,
        HfTransformType::DCT128X128 => 16,
        HfTransformType::DCT128X64 => 16,
        HfTransformType::DCT64X128 => 8,
        HfTransformType::DCT256X256 => 32,
        HfTransformType::DCT256X128 => 32,
        HfTransformType::DCT128X256 => 16,
        _ => 1,
    }
}

/// The coefficient-order shape of a transform: transforms that share a shape
/// share a scan order (all 8x8-sized transforms share shape 1, except DCT8x8).
pub open spec fn spec_shape_id(t: HfTransformType) -> nat {
    match t {
        HfTransformType::DCT => 0,
        HfTransformType::IDENTITY => 1,
        HfTransformType::DCT2X2 => 1,
        HfTransformType::DCT4X4 => 1,
        HfTransformType::DCT16X16 => 2,
        HfTransformType::DCT32X32 => 3,
        HfTransformType::DCT16X8 => 4,
        HfTransformType::DCT8X16 => 4,
        HfTransformType::DCT32X8 => 5,
        HfTransformType::DCT8X32 => 5,
        HfTransformType::DCT32X16 => 6,
        HfTransformType::DCT16X32 => 6,
        HfTransformType::DCT4X8 => 1,
        HfTransformType::DCT8X4 => 1,
        HfTransformType::AFV0 => 1,
        HfTransformType::AFV1 => 1,
        HfTransformType::AFV2 => 1,
        HfTransformType::AFV3 => 1,
        HfTransformType::DCT64X64 => 7,
        HfTransformType::DCT64X32 => 8,
        HfTransformType::DCT32X64 => 8,
        HfTransformType::DCT128X128 => 9,
        HfTransformType::DCT128X64 => 10,
        HfTransformType::DCT64X128 => 10,
        HfTransformType::DCT256X256 => 11,
        HfTransformType::DCT256X128 => 12,
        HfTransformType::DCT128X256 => 12,
    }
}

/// The transform type with id `id` (DCT8x8 for ids that name no transform).
pub open spec fn spec_type_of_id(id: int) -> HfTransformType {
    if id == 1 {
        HfTransformType::IDENTITY
    } else if id == 2 {
        HfTransformType::DCT2X2
    } else if id == 3 {
        HfTransformType::DCT4X4
    } else if id == 4 {
        HfTransformType::DCT16X16
    } else if id == 5 {
        HfTransformType::DCT32X32
    } else if id == 6 {
        HfTransformType::DCT16X8
    } else if id == 7 {
        HfTransformType::DCT8X16
    } else if id == 8 {
        HfTransformType::DCT32X8
    } else if id == 9 {
        HfTransformType::DCT8X32
    } else if id == 10 {
        HfTransformType::DCT32X16
    } else if id == 11 {
        HfTransformType::DCT16X32
    } else if id == 12 {
        HfTransformType::DCT4X8
    } else if id == 13 {
        HfTransformType::DCT8X4
    } else if id == 14 {
        HfTransformType::AFV0
    } else if id == 15 {
        HfTransformType::AFV1
    } else if id == 16 {
        HfTransformType::AFV2
    } else if id == 17 {
        HfTransformType::AFV3
    } else if id == 18 {
        HfTransformType::DCT64X64
    } else if id == 19 {
        HfTransformType::DCT64X32
    } else if id == 20 {
        HfTransformType::DCT32X64
    } else if id == 21 {
        HfTransformType::DCT128X128
    } else if id == 22 {
        HfTransformType::DCT128X64
    } else if id == 23 {
        HfTransformType::DCT64X128
    } else if id == 24 {
        HfTransformType::DCT256X256
    } else if id == 25 {
        HfTransformType::DCT256X128
    } else if id == 26 {
        HfTransformType::DCT128X256
    } else {
        HfTransformType::DCT
    }
}

impl HfTransformType {
    /// The transform type with the given id, if there is one.
    pub fn from_usize(id: usize) -> (r: Option<HfTransformType>)
        ensures
            r matches Some(t) ==> spec_transform_id(t) == id,
            r is Some <==> id < NUM_TRANSFORM_TYPES,
            id < NUM_TRANSFORM_TYPES ==> r == Some(spec_type_of_id(id as int)),
    {
        match id {
            0 => Some(HfTransformType::DCT),
            1 => Some(HfTransformType::IDENTITY),
            2 => Some(HfTransformType::DCT2X2),
            3 => Some(HfTransformType::DCT4X4),
            4 => Some(HfTransformType::DCT16X16),
            5 => Some(HfTransformType::DCT32X32),
            6 => Some(HfTransformType::DCT16X8),
            7 => Some(HfTransformType::DCT8X16),
            8 => Some(HfTransformType::DCT32X8),
            9 => Some(HfTransformType::DCT8X32),
            10 => Some(HfTransformType::DCT32X16),
            11 => Some(HfTransformType::DCT16X32),
            12 => Some(HfTransformType::DCT4X8),
            13 => Some(HfTransformType::DCT8X4),
            14 => Some(HfTransformType::AFV0),
            15 => Some(HfTransformType::AFV1),
            16 => Some(HfTransformType::AFV2),
            17 => Some(HfTransformType::AFV3),
            18 => Some(HfTransformType::DCT64X64),
            19 => Some(HfTransformType::DCT64X32),
            20 => Some(HfTransformType::DCT32X64),
            21 => Some(HfTransformType::DCT128X128),
            22 => Some(HfTransformType::DCT128X64),
            23 => Some(HfTransformType::DCT64X128),
            24 => Some(HfTransformType::DCT256X256),
            25 => Some(HfTransformType::DCT256X128),
            26 => Some(HfTransformType::DCT128X256),
            _ => None,
        }
    }
}

/// Blocks covered horizontally by a transform.
pub fn covered_blocks_x(t: HfTransformType) -> (r: u32)
    ensures
        r == spec_covered_x(t),
        1 <= r <= 32,
{
    match t {
        HfTransformType::DCT16X16 => 2,
        HfTransformType::DCT32X32 => 4,
        HfTransformType::DCT16X8 => 1,
        HfTransformType::DCT8X16 => 2,
        HfTransformType::DCT32X8 => 1,
        HfTransformType::DCT8X32 => 4,
        HfTransformType::DCT32X16 => 2,
        HfTransformType::DCT16X32 => 4,
        HfTransformType::DCT64X64 => 8,
        HfTransformType::DCT64X32 => 4,
        HfTransformType::DCT32X64 => 8,
        HfTransformType::DCT128X128 => 16,
        HfTransformType::DCT128X64 => 8,
        HfTransformType::DCT64X128 => 16,
        HfTransformType::DCT256X256 => 32,
        HfTransformType::DCT256X128 => 16,
        HfTransformType::DCT128X256 => 32,
        _ => 1,
    }
}

/// Blocks covered vertically by a transform.
pub fn covered_blocks_y(t: HfTransformType) -> (r: u32)
    ensures
        r == spec_covered_y(t),
        1 <= r <= 32,
{
    match t {
        HfTransformType::DCT16X16 => 2,
        HfTransformType::DCT32X32 => 4,
        HfTransformType::DCT16X8 => 2,
        HfTransformType::DCT8X16 => 1,
        HfTransformType::DCT32X8 => 4,
        HfTransformType::DCT8X32 => 1,
        HfTransformType::DCT32X16 => 4,
        HfTransformType::DCT16X32 => 2,
        HfTransformType::DCT64X64 => 8,
        HfTransformType::DCT64X32 => 8,
        HfTransformType::DCT32X64 => 4,
        HfTransformType::DCT128X128 => 16,
        HfTransformType::DCT128X64 => 16,
        HfTransformType::DCT64X128 => 8,
        HfTransformType::DCT256X256 => 32,
        HfTransformType::DCT256X128 => 32,
        HfTransformType::DCT128X256 => 16,
        _ => 1,
    }
}

/// The coefficient-order shape of a transform.
pub fn block_shape_id(t: HfTransformType) -> (r: u32)
    ensures
        r == spec_shape_id(t),
        r < 13,
{
    match t {
        HfTransformType::DCT => 0,
        HfTransformType::DCT16X16 => 2,
        HfTransformType::DCT32X32 => 3,
        HfTransformType::DCT16X8 => 4,
        HfTransformType::DCT8X16 => 4,
        HfTransformType::DCT32X8 => 5,
        HfTransformType::DCT8X32 => 5,
        HfTransformType::DCT32X16 => 6,
        HfTransformType::DCT16X32 => 6,
        HfTransformType::DCT64X64 => 7,
        HfTransformType::DCT64X32 => 8,
        HfTransformType::DCT32X64 => 8,
        HfTransformType::DCT128X128 => 9,
        HfTransformType::DCT128X64 => 10,
        HfTransformType::DCT64X128 => 10,
        HfTransformType::DCT256X256 => 11,
        HfTransformType::DCT256X128 => 12,
        HfTransformType::DCT128X256 => 12,
        _ => 1,
    }
}

/// Transform ids that the non-zero coefficient path can tokenize: every id
/// of the VarDCT mode except DCT8x8.
pub open spec fn spec_supported_nonzero_id(id: u8) -> bool {
    1 <= id <= 26
}

/// Whether a transform id is handled by the non-zero coefficient path.
pub fn is_supported_nonzero_transform_id(transform_id: u8) -> (r: bool)
    ensures
        r == spec_supported_nonzero_id(transform_id),
{
    matches!(
        transform_id,
        IDENTITY_TRANSFORM_ID
            | DCT2X2_TRANSFORM_ID
            | DCT4X4_TRANSFORM_ID
            | DCT16_TRANSFORM_ID
            | DCT32_TRANSFORM_ID
            | DCT16X8_TRANSFORM_ID
            | DCT8X16_TRANSFORM_ID
            | DCT32X8_TRANSFORM_ID
            | DCT8X32_TRANSFORM_ID
            | DCT32X16_TRANSFORM_ID
            | DCT16X32_TRANSFORM_ID
            | DCT4X8_TRANSFORM_ID
            | DCT8X4_TRANSFORM_ID
            | AFV0_TRANSFORM_ID
            | AFV1_TRANSFORM_ID
            | AFV2_TRANSFORM_ID
            | AFV3_TRANSFORM_ID
            | DCT64_TRANSFORM_ID
            | DCT64X32_TRANSFORM_ID
            | DCT32X64_TRANSFORM_ID
            | DCT128_TRANSFORM_ID
            | DCT128X64_TRANSFORM_ID
            | DCT64X128_TRANSFORM_ID
            | DCT256_TRANSFORM_ID
            | DCT256X128_TRANSFORM_ID
            | DCT128X256_TRANSFORM_ID
    )
}

/// The transform whose scan order stands for a coefficient-order shape.
pub open spec fn spec_canonical_for_shape(shape_id: int) -> Option<HfTransformType> {
    if shape_id == 0 {
        Some(HfTransformType::DCT)
    } else if shape_id == 1 {
        Some(HfTransformType::AFV0)
    } else if shape_id == 2 {
        Some(HfTransformType::DCT16X16)
    } else if shape_id == 3 {
        Some(HfTransformType::DCT32X32)
    } else if shape_id == 4 {
        Some(HfTransformType::DCT8X16)
    } else if shape_id == 5 {
        Some(HfTransformType::DCT8X32)
    } else if shape_id == 6 {
        Some(HfTransformType::DCT16X32)
    } else if shape_id == 7 {
        Some(HfTransformType::DCT64X64)
    } else if shape_id == 8 {
        Some(HfTransformType::DCT32X64)
    } else if shape_id == 9 {
        Some(HfTransformType::DCT128X128)
    } else if shape_id == 10 {
        Some(HfTransformType::DCT64X128)
    } else if shape_id == 11 {
        Some(HfTransformType::DCT256X256)
    } else if shape_id == 12 {
        Some(HfTransformType::DCT128X256)
    } else {
        None
    }
}

/// The canonical transform of a coefficient-order shape id.
pub fn canonical_transform_for_shape_id(shape_id: usize) -> (r: Option<HfTransformType>)
    ensures
        r == spec_canonical_for_shape(shape_id as int),
{
    match shape_id {
        0 => Some(HfTransformType::DCT),
        1 => Some(HfTransformType::AFV0),
        2 => Some(HfTransformType::DCT16X16),
        3 => Some(HfTransformType::DCT32X32),
        4 => Some(HfTransformType::DCT8X16),
        5 => Some(HfTransformType::DCT8X32),
        6 => Some(HfTransformType::DCT16X32),
        7 => Some(HfTransformType::DCT64X64),
        8 => Some(HfTransformType::DCT32X64),
        9 => Some(HfTransformType::DCT128X128),
        10 => Some(HfTransformType::DCT64X128),
        11 => Some(HfTransformType::DCT256X256),
        12 => Some(HfTransformType::DCT128X256),
        _ => None,
    }
}

/// Index into the table of 8x8 special transforms (identity, small DCTs and AFV).
pub open spec fn spec_special_8x8_index(id: u8) -> Option<(usize, HfTransformType)> {
    if id == IDENTITY_TRANSFORM_ID {
        Some((0usize, HfTransformType::IDENTITY))
    } else if id == DCT2X2_TRANSFORM_ID {
        Some((1usize, HfTransformType::DCT2X2))
    } else if id == DCT4X4_TRANSFORM_ID {
        Some((2usize, HfTransformType::DCT4X4))
    } else if id == DCT4X8_TRANSFORM_ID {
        Some((3usize, HfTransformType::DCT4X8))
    } else if id == DCT8X4_TRANSFORM_ID {
        Some((4usize, HfTransformType::DCT8X4))
    } else if id == AFV0_TRANSFORM_ID {
        Some((5usize, HfTransformType::AFV0))
    } else if id == AFV1_TRANSFORM_ID {
        Some((6usize, HfTransformType::AFV1))
    } else if id == AFV2_TRANSFORM_ID {
        Some((7usize, HfTransformType::AFV2))
    } else if id == AFV3_TRANSFORM_ID {
        Some((8usize, HfTransformType::AFV3))
    } else {
        None
    }
}

/// Table index and type of an 8x8 special transform id.
pub fn special_8x8_transform_index(transform_id: u8) -> (r: Option<(usize, HfTransformType)>)
    ensures
        r == spec_special_8x8_index(transform_id),
        r matches Some(p) ==> spec_transform_id(p.1) == transform_id && spec_covered_x(p.1) == 1
            && spec_covered_y(p.1) == 1,
{
    match transform_id {
        IDENTITY_TRANSFORM_ID => Some((0usize, HfTransformType::IDENTITY)),
        DCT2X2_TRANSFORM_ID => Some((1usize, HfTransformType::DCT2X2)),
        DCT4X4_TRANSFORM_ID => Some((2usize, HfTransformType::DCT4X4)),
        DCT4X8_TRANSFORM_ID => Some((3usize, HfTransformType::DCT4X8)),
        DCT8X4_TRANSFORM_ID => Some((4usize, HfTransformType::DCT8X4)),
        AFV0_TRANSFORM_ID => Some((5usize, HfTransformType::AFV0)),
        AFV1_TRANSFORM_ID => Some((6usize, HfTransformType::AFV1)),
        AFV2_TRANSFORM_ID => Some((7usize, HfTransformType::AFV2)),
        AFV3_TRANSFORM_ID => Some((8usize, HfTransformType::AFV3)),
        _ => None,
    }
}

/// Whether a transform id is one of the 8x8 special transforms.
pub fn is_special_8x8_transform_id(transform_id: u8) -> (r: bool)
    ensures
        r == spec_special_8x8_index(transform_id) is Some,
        r <==> (transform_id == 1 || transform_id == 2 || transform_id == 3 || (12
            <= transform_id <= 17)),
{
    special_8x8_transform_index(transform_id).is_some()
}

/// Table index and type of a square multi-block DCT (16x16 or 32x32).
pub fn square_transform_index(transform_id: u8) -> (r: Option<(usize, HfTransformType)>)
    ensures
        transform_id == DCT16_TRANSFORM_ID ==> r == Some((0usize, HfTransformType::DCT16X16)),
        transform_id == DCT32_TRANSFORM_ID ==> r == Some((1usize, HfTransformType::DCT32X32)),
        transform_id != DCT16_TRANSFORM_ID && transform_id != DCT32_TRANSFORM_ID ==> r is None,
{
    match transform_id {
        DCT16_TRANSFORM_ID => Some((0usize, HfTransformType::DCT16X16)),
        DCT32_TRANSFORM_ID => Some((1usize, HfTransformType::DCT32X32)),
        _ => None,
    }
}

/// Table index and type of a rectangular DCT of up to 32 pixels per side.
pub fn rectangular_transform_index(transform_id: u8) -> (r: Option<(usize, HfTransformType)>)
    ensures
        r is Some <==> 6 <= transform_id <= 11,
        r matches Some(p) ==> p.0 == transform_id - 6 && spec_transform_id(p.1) == transform_id,
{
    match transform_id {
        DCT16X8_TRANSFORM_ID => Some((0usize, HfTransformType::DCT16X8)),
        DCT8X16_TRANSFORM_ID => Some((1usize, HfTransformType::DCT8X16)),
        DCT32X8_TRANSFORM_ID => Some((2usize, HfTransformType::DCT32X8)),
        DCT8X32_TRANSFORM_ID => Some((3usize, HfTransformType::DCT8X32)),
        DCT32X16_TRANSFORM_ID => Some((4usize, HfTransformType::DCT32X16)),
        DCT16X32_TRANSFORM_ID => Some((5usize, HfTransformType::DCT16X32)),
        _ => None,
    }
}

} // verus!

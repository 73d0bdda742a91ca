//! Verified building blocks of a JPEG XL VarDCT encoder.
pub mod error;
pub mod transform;
pub mod effort;
pub mod quant_map;
pub mod transform_map;
pub mod merge_map;
pub mod coeff_order;
pub mod tokenize;
pub mod context_map;
pub mod pnm;
pub mod pixels;
pub mod options;
pub mod jpeg;
pub mod header;
pub mod special_map;
pub mod map_candidates;
pub mod group_sections;
pub mod frame_plan;
pub mod frame_sections;
pub mod scan_perm;

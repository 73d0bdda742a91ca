use jxl::error::Error;
use jxl::header::{
    duration_coder, encode_lf_global_section, global_scale_coder, quant_lf_coder,
    write_vardct_frame_header,
    write_vardct_frame_header_animated, write_vardct_frame_header_full, FrameHeaderConfig,
    HeaderField, U32Coder, U32,
};
use jxl::jpeg::JpegReconstructionData;
use jxl::tokenize::CustomBlockCtx;

#[test]
fn jpeg_payload_round_trips() {
    let payload = [1u8, 2, 3, 250];
    let data = JpegReconstructionData::parse(&payload).unwrap();
    assert_eq!(data.raw, payload.to_vec());
    assert_eq!(JpegReconstructionData::parse(&[]), Err(Error::InvalidBox));
    assert_eq!(JpegReconstructionData::default().raw, Vec::<u8>::new());
}

fn bits(n: usize, value: u64) -> HeaderField {
    HeaderField::Bits { n, value }
}

#[test]
fn coders() {
    assert_eq!(
        global_scale_coder(),
        U32Coder::Select(
            U32::BitsOffset { n: 11, off: 1 },
            U32::BitsOffset { n: 11, off: 2049 },
            U32::BitsOffset { n: 12, off: 4097 },
            U32::BitsOffset { n: 16, off: 8193 },
        )
    );
    assert_eq!(
        quant_lf_coder(),
        U32Coder::Select(
            U32::Val(16),
            U32::BitsOffset { n: 5, off: 1 },
            U32::BitsOffset { n: 8, off: 1 },
            U32::BitsOffset { n: 16, off: 1 },
        )
    );
    assert_eq!(duration_coder(), U32Coder::Select(U32::Val(0), U32::Val(1), U32::Bits(8), U32::Bits(32)));
}

#[test]
fn still_frame_header_fields() {
    let mut w = Vec::new();
    write_vardct_frame_header(&mut w, 16, 16, true);
    assert_eq!(
        w,
        vec![
            bits(1, 0), bits(2, 0), bits(1, 0), bits(2, 0), bits(2, 0),
            bits(3, 3), bits(3, 2),
            bits(2, 0),
            bits(1, 0), bits(2, 0),
            bits(1, 1),
            bits(2, 0), bits(1, 0), bits(1, 1), bits(1, 0),
            bits(2, 2), bits(1, 0), bits(1, 0), bits(1, 0), bits(2, 0), bits(2, 0),
        ]
    );
}

#[test]
fn animated_frame_header_fields() {
    let mut w = Vec::new();
    write_vardct_frame_header_animated(&mut w, 16, 16, false, 40, false);
    assert_eq!(w.len(), 22);
    assert_eq!(w[10], HeaderField::U32 { coder: duration_coder(), value: 40 });
    assert_eq!(w[11], bits(1, 0));
    assert_eq!(w[12], bits(2, 0));
    assert_eq!(w[15], bits(1, 0));
}

#[test]
fn progressive_frame_header_fields() {
    let cfg = FrameHeaderConfig {
        use_gab: false,
        num_extra_channels: 1,
        have_animation: false,
        duration: 0,
        is_last: true,
        num_passes: 3,
        pass_shifts: vec![2, 9],
    };
    let mut w = vec![bits(8, 1)];
    write_vardct_frame_header_full(&mut w, &cfg);
    assert_eq!(w[0], bits(8, 1));
    // Header starts after the existing field; the extra channel adds one
    // upsampling and one blending field.
    assert_eq!(&w[7..9], &[bits(3, 3), bits(3, 2)]);
    assert_eq!(&w[9..13], &[bits(2, 2), bits(2, 0), bits(2, 2), bits(2, 3)]);
    let six = FrameHeaderConfig { num_passes: 6, pass_shifts: vec![], ..cfg };
    let mut w = Vec::new();
    write_vardct_frame_header_full(&mut w, &six);
    assert_eq!(&w[8..11], &[bits(2, 3), bits(3, 2), bits(2, 0)]);
    assert_eq!(&w[11..16], &vec![bits(2, 0); 5][..]);
}

#[test]
fn lf_global_section_with_default_block_context() {
    let fields = encode_lf_global_section(2048, 16, None, false);
    assert_eq!(
        fields,
        vec![
            bits(1, 1),
            HeaderField::U32 { coder: global_scale_coder(), value: 2048 },
            HeaderField::U32 { coder: quant_lf_coder(), value: 16 },
            bits(1, 1),
            bits(1, 1),
            bits(1, 0),
            HeaderField::ZeroPadToByte,
        ]
    );
}

#[test]
fn lf_global_section_with_custom_block_context_and_alpha() {
    let ctx = CustomBlockCtx {
        qf_thresholds: vec![5, 1, 13, 50],
        context_map: vec![0, 1, 2],
        num_contexts: 3,
    };
    let fields = encode_lf_global_section(100, 20, Some(&ctx), true);
    assert_eq!(
        fields,
        vec![
            bits(1, 1),
            HeaderField::U32 { coder: global_scale_coder(), value: 100 },
            HeaderField::U32 { coder: quant_lf_coder(), value: 20 },
            bits(1, 0),
            bits(4, 0),
            bits(4, 0),
            bits(4, 0),
            bits(4, 4),
            // threshold 5 -> value 4: tag 1, three bits
            bits(2, 1),
            bits(3, 0),
            // threshold 1 -> value 0: tag 0, two bits
            bits(2, 0),
            bits(2, 0),
            // threshold 13 -> value 12: tag 2, five bits
            bits(2, 2),
            bits(5, 0),
            // threshold 50 -> value 49: tag 3, eight bits
            bits(2, 3),
            bits(8, 5),
            HeaderField::ContextMap(vec![0, 1, 2]),
            bits(1, 1),
            bits(1, 0),
            bits(1, 0),
            bits(1, 1),
            bits(2, 0),
            HeaderField::ZeroPadToByte,
        ]
    );
}

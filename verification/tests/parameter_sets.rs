use h265rs::{
    BitReader, ScalingListData, SequenceParameterSetHeader, SequenceParameterSetSyntax, SyntaxError, VideoParameterSetHeader,
};

fn push_bits(bits: &mut Vec<bool>, value: u64, count: usize) {
    for index in (0..count).rev() {
        bits.push(((value >> index) & 1) != 0);
    }
}

fn push_ue(bits: &mut Vec<bool>, value: u64) {
    let code_num = value + 1;
    let width = 64 - code_num.leading_zeros() as usize;
    bits.extend(std::iter::repeat_n(false, width - 1));
    push_bits(bits, code_num, width);
}

fn finish_bits(bits: &[bool]) -> Vec<u8> {
    let mut bytes = vec![0; bits.len().div_ceil(8)];
    for (index, &bit) in bits.iter().enumerate() {
        if bit {
            bytes[index / 8] |= 1 << (7 - index % 8);
        }
    }
    bytes
}

fn push_profile_tier_level(bits: &mut Vec<bool>) {
    push_bits(bits, 0, 2); // general_profile_space
    push_bits(bits, 0, 1); // general_tier_flag
    push_bits(bits, 1, 5); // general_profile_idc
    push_bits(bits, 0, 32); // compatibility flags
    push_bits(bits, 0, 4); // source and frame flags
    push_bits(bits, 0, 44); // constraint flags and reserved bits
    push_bits(bits, 120, 8); // general_level_idc
}

#[test]
fn vps_header_parser_follows_7_3_2_1() {
    let mut bits = Vec::new();
    push_bits(&mut bits, 3, 4); // vps_video_parameter_set_id
    push_bits(&mut bits, 1, 1); // base layer internal
    push_bits(&mut bits, 0, 1); // base layer available
    push_bits(&mut bits, 0, 6); // max layers minus one
    push_bits(&mut bits, 0, 3); // max sub-layers minus one
    push_bits(&mut bits, 1, 1); // temporal nesting
    push_bits(&mut bits, 0xffff, 16);
    push_profile_tier_level(&mut bits);
    push_bits(&mut bits, 1, 1); // ordering info present
    push_ue(&mut bits, 0);
    push_ue(&mut bits, 0);
    push_ue(&mut bits, 0);
    push_bits(&mut bits, 0, 6); // max layer id
    push_ue(&mut bits, 0); // layer sets minus one
    push_bits(&mut bits, 0, 1); // timing info absent

    let bytes = finish_bits(&bits);
    let mut reader = BitReader::new(&bytes);
    let vps = VideoParameterSetHeader::parse(&mut reader).unwrap();
    assert_eq!(vps.vps_video_parameter_set_id, 3);
    assert_eq!(vps.vps_reserved_0xffff_16bits, 0xffff);
    assert_eq!(vps.profile_tier_level.general_level_idc, 120);
    assert_eq!(vps.sub_layer_ordering_info.len(), 1);
    assert!(!vps.vps_timing_info_present_flag);
}

#[test]
fn sps_header_parser_derives_core_picture_fields() {
    let mut bits = Vec::new();
    push_bits(&mut bits, 0, 4); // SPS VPS id
    push_bits(&mut bits, 0, 3); // max sub-layers minus one
    push_bits(&mut bits, 1, 1); // temporal nesting
    push_profile_tier_level(&mut bits);
    push_ue(&mut bits, 2); // SPS id
    push_ue(&mut bits, 1); // 4:2:0
    push_ue(&mut bits, 1920);
    push_ue(&mut bits, 1080);
    push_bits(&mut bits, 0, 1); // no conformance window
    push_ue(&mut bits, 2); // luma depth minus eight
    push_ue(&mut bits, 2); // chroma depth minus eight
    push_ue(&mut bits, 4); // POC LSB minus four
    push_bits(&mut bits, 1, 1); // ordering info present
    for _ in 0..3 {
        push_ue(&mut bits, 0);
    }
    push_ue(&mut bits, 0);
    push_ue(&mut bits, 3);
    push_ue(&mut bits, 0);
    push_ue(&mut bits, 3);
    push_ue(&mut bits, 0);
    push_ue(&mut bits, 0);

    let bytes = finish_bits(&bits);
    let mut reader = BitReader::new(&bytes);
    let sps = SequenceParameterSetHeader::parse(&mut reader).unwrap();
    assert_eq!(sps.sps_seq_parameter_set_id, 2);
    assert_eq!(sps.chroma_format_idc, 1);
    assert_eq!(sps.pic_width_in_luma_samples, 1920);
    assert_eq!(sps.pic_height_in_luma_samples, 1080);
    assert_eq!(sps.bit_depth_luma_minus8, 2);
    assert_eq!(sps.sub_layer_ordering_info.len(), 1);
}

#[test]
fn sps_header_reads_separate_planes_window_and_every_sub_layer() {
    let mut bits = Vec::new();
    push_bits(&mut bits, 1, 4);
    push_bits(&mut bits, 1, 3); // two sub-layers
    push_bits(&mut bits, 0, 1);
    push_profile_tier_level(&mut bits);
    push_bits(&mut bits, 0, 4); // both sub-layers: no profile, no level
    push_bits(&mut bits, 0, 12); // reserved_zero_2bits for sub-layers 1..7
    push_ue(&mut bits, 0);
    push_ue(&mut bits, 3); // 4:4:4
    push_bits(&mut bits, 1, 1); // separate colour planes
    push_ue(&mut bits, 64);
    push_ue(&mut bits, 32);
    push_bits(&mut bits, 1, 1); // conformance window
    for offset in [1, 2, 3, 4] {
        push_ue(&mut bits, offset);
    }
    push_ue(&mut bits, 0);
    push_ue(&mut bits, 0);
    push_ue(&mut bits, 0);
    push_bits(&mut bits, 1, 1); // ordering info for every sub-layer
    for value in [5, 1, 0, 6, 2, 0] {
        push_ue(&mut bits, value);
    }
    for _ in 0..6 {
        push_ue(&mut bits, 1);
    }
    let bytes = finish_bits(&bits);
    let mut reader = BitReader::new(&bytes);
    let sps = SequenceParameterSetHeader::parse(&mut reader).unwrap();
    assert!(sps.separate_colour_plane_flag);
    assert_eq!(sps.conformance_window, Some([1, 2, 3, 4]));
    assert_eq!(sps.sub_layer_ordering_info.len(), 2);
    assert_eq!(sps.sub_layer_ordering_info[1].max_dec_pic_buffering_minus1, 6);
    assert_eq!(sps.sub_layer_ordering_info[1].max_num_reorder_pics, 2);
    assert_eq!(sps.max_transform_hierarchy_depth_intra, 1);
    assert_eq!(reader.position(), bits.len());
}

#[test]
fn truncated_parameter_sets_report_the_missing_bits() {
    let mut reader = BitReader::new(&[0x30]);
    assert!(matches!(
        VideoParameterSetHeader::parse(&mut reader),
        Err(SyntaxError::UnexpectedEnd { .. })
    ));
    let mut reader = BitReader::new(&[0x01, 0x00]);
    assert!(matches!(
        SequenceParameterSetHeader::parse(&mut reader),
        Err(SyntaxError::UnexpectedEnd { .. })
    ));
}

#[test]
fn vps_layer_sets_hold_one_flag_per_layer_id() {
    let mut bits = Vec::new();
    push_bits(&mut bits, 0, 4);
    push_bits(&mut bits, 1, 1);
    push_bits(&mut bits, 1, 1);
    push_bits(&mut bits, 0, 6);
    push_bits(&mut bits, 0, 3);
    push_bits(&mut bits, 1, 1);
    push_bits(&mut bits, 0xffff, 16);
    push_profile_tier_level(&mut bits);
    push_bits(&mut bits, 0, 1); // ordering info only for the highest sub-layer
    push_ue(&mut bits, 4);
    push_ue(&mut bits, 1);
    push_ue(&mut bits, 0);
    push_bits(&mut bits, 2, 6); // max layer id two
    push_ue(&mut bits, 2); // two more layer sets
    push_bits(&mut bits, 0b101, 3);
    push_bits(&mut bits, 0b011, 3);
    push_bits(&mut bits, 1, 1); // timing info present
    let bytes = finish_bits(&bits);
    let mut reader = BitReader::new(&bytes);
    let vps = VideoParameterSetHeader::parse(&mut reader).unwrap();
    assert_eq!(vps.sub_layer_ordering_info[0].max_dec_pic_buffering_minus1, 4);
    assert_eq!(vps.vps_max_layer_id, 2);
    assert_eq!(
        vps.layer_id_included_flag,
        vec![vec![true, false, true], vec![false, true, true]]
    );
    assert!(vps.vps_timing_info_present_flag);
    assert_eq!(reader.position(), bits.len());
}

fn push_se(bits: &mut Vec<bool>, value: i64) {
    let code = if value > 0 { 2 * value as u64 - 1 } else { (-2 * value) as u64 };
    push_ue(bits, code);
}

fn push_sps_header(bits: &mut Vec<bool>) {
    push_bits(bits, 0, 4);
    push_bits(bits, 0, 3);
    push_bits(bits, 1, 1);
    push_profile_tier_level(bits);
    push_ue(bits, 0); // SPS id
    push_ue(bits, 1); // 4:2:0
    push_ue(bits, 64);
    push_ue(bits, 64);
    push_bits(bits, 0, 1); // no conformance window
    push_ue(bits, 0);
    push_ue(bits, 0);
    push_ue(bits, 4); // log2_max_pic_order_cnt_lsb_minus4 = 4
    push_bits(bits, 1, 1);
    for _ in 0..3 {
        push_ue(bits, 0);
    }
    for _ in 0..6 {
        push_ue(bits, 0);
    }
}

#[test]
fn scaling_list_data_reads_predicted_and_explicit_matrices() {
    let mut bits = Vec::new();
    // sizeId 0, matrixId 0: explicit, deltas +1 then -2 then zeros.
    push_bits(&mut bits, 1, 1);
    push_se(&mut bits, 1);
    push_se(&mut bits, -2);
    for _ in 0..14 {
        push_se(&mut bits, 0);
    }
    // the other 19 entries are predicted with delta 0.
    for _ in 0..19 {
        push_bits(&mut bits, 0, 1);
        push_ue(&mut bits, 0);
    }
    let bytes = finish_bits(&bits);
    let mut reader = BitReader::new(&bytes);
    let data = ScalingListData::parse(&mut reader).unwrap();
    assert_eq!(data.matrices.len(), 20);
    let first = &data.matrices[0];
    assert!(first.pred_mode_flag);
    assert_eq!(first.delta_coefficients[..3], [1, -2, 0]);
    assert_eq!(first.coefficients[..3], [9, 7, 7]);
    assert_eq!(first.coefficients.len(), 16);
    let last = &data.matrices[19];
    assert_eq!((last.size_id, last.matrix_id, last.pred_matrix_id_delta), (3, 3, Some(0)));
    assert_eq!((data.matrices[18].size_id, data.matrices[18].matrix_id), (3, 0));
    assert_eq!(reader.position(), bits.len());
}

#[test]
fn scaling_list_data_wraps_coefficients_and_starts_large_lists_at_the_dc_value() {
    let mut bits = Vec::new();
    for _ in 0..12 {
        push_bits(&mut bits, 0, 1);
        push_ue(&mut bits, 1);
    }
    // sizeId 2, matrixId 0: dc 16 (minus8 = 8), first delta -30 wraps.
    push_bits(&mut bits, 1, 1);
    push_se(&mut bits, 8);
    push_se(&mut bits, -30);
    for _ in 0..63 {
        push_se(&mut bits, 0);
    }
    let bytes = finish_bits(&bits);
    let mut reader = BitReader::new(&bytes);
    assert!(matches!(ScalingListData::parse(&mut reader), Err(SyntaxError::UnexpectedEnd { .. })));
    for _ in 0..7 {
        push_bits(&mut bits, 0, 1);
        push_ue(&mut bits, 0);
    }
    let bytes = finish_bits(&bits);
    let mut reader = BitReader::new(&bytes);
    let data = ScalingListData::parse(&mut reader).unwrap();
    let matrix = &data.matrices[12];
    assert_eq!((matrix.size_id, matrix.matrix_id, matrix.dc_coef_minus8), (2, 0, Some(8)));
    assert_eq!(matrix.coefficients[0], 242);
    assert_eq!(matrix.coefficients.len(), 64);
}

#[test]
fn sps_parser_reads_every_stage_through_the_extension_flag() {
    let mut bits = Vec::new();
    push_sps_header(&mut bits);
    push_bits(&mut bits, 0, 1); // scaling lists disabled
    push_bits(&mut bits, 1, 1); // AMP
    push_bits(&mut bits, 1, 1); // SAO
    push_bits(&mut bits, 1, 1); // PCM
    push_bits(&mut bits, 7, 4);
    push_bits(&mut bits, 7, 4);
    push_ue(&mut bits, 0);
    push_ue(&mut bits, 1);
    push_bits(&mut bits, 1, 1); // PCM loop filter disabled
    push_ue(&mut bits, 1); // one short-term RPS
    push_ue(&mut bits, 1); // one negative picture
    push_ue(&mut bits, 0); // no positive pictures
    push_ue(&mut bits, 0); // delta_poc_s0_minus1
    push_bits(&mut bits, 1, 1); // used
    push_bits(&mut bits, 1, 1); // long-term pictures present
    push_ue(&mut bits, 2);
    push_bits(&mut bits, 5, 8);
    push_bits(&mut bits, 1, 1);
    push_bits(&mut bits, 200, 8);
    push_bits(&mut bits, 0, 1);
    push_bits(&mut bits, 1, 1); // temporal MVP
    push_bits(&mut bits, 0, 1); // strong intra smoothing
    push_bits(&mut bits, 0, 1); // no VUI
    push_bits(&mut bits, 1, 1); // extension present

    let bytes = finish_bits(&bits);
    let mut reader = BitReader::new(&bytes);
    let sps = SequenceParameterSetSyntax::parse(&mut reader).unwrap();
    assert_eq!(sps.header.pic_width_in_luma_samples, 64);
    assert!(!sps.scaling_list_enabled_flag && sps.scaling_list_data.is_none());
    assert!(sps.amp_enabled_flag && sps.sample_adaptive_offset_enabled_flag && sps.pcm_enabled_flag);
    let pcm = sps.pcm.unwrap();
    assert_eq!((pcm.sample_bit_depth_luma_minus1, pcm.log2_diff_max_min_pcm_luma_coding_block_size), (7, 1));
    assert!(pcm.loop_filter_disabled_flag);
    assert_eq!(sps.num_short_term_ref_pic_sets, 1);
    assert_eq!(sps.short_term_ref_pic_sets[0].num_negative_pics, Some(1));
    let long_term = sps.long_term_ref_pic_set.unwrap();
    assert_eq!(long_term.poc_lsb_sps, vec![5, 200]);
    assert_eq!(long_term.used_by_curr_pic_lt_sps_flag, vec![true, false]);
    assert!(sps.sps_temporal_mvp_enabled_flag && !sps.strong_intra_smoothing_enabled_flag);
    assert!(sps.vui_parameters.is_none());
    assert!(sps.sps_extension_present_flag);
    assert_eq!(reader.position(), bits.len());

    let mut reader = BitReader::new(&bytes[..bytes.len() - 3]);
    assert!(matches!(SequenceParameterSetSyntax::parse(&mut reader), Err(SyntaxError::UnexpectedEnd { .. })));
}

#[test]
fn scaling_list_dc_overflow_is_reported() {
    let mut bits = Vec::new();
    for _ in 0..12 {
        push_bits(&mut bits, 0, 1);
        push_ue(&mut bits, 0);
    }
    push_bits(&mut bits, 1, 1);
    push_se(&mut bits, i64::MAX);
    let bytes = finish_bits(&bits);
    let mut reader = BitReader::new(&bytes);
    assert_eq!(
        ScalingListData::parse(&mut reader),
        Err(SyntaxError::InvalidSyntaxValue("scaling list coefficient overflows"))
    );
    assert_eq!(reader.position(), bits.len());
}

use h265rs::{parse_hrd_parameters, parse_vui_parameters, BitReader, SyntaxError};

fn push_bits(bits: &mut Vec<bool>, value: u64, count: usize) {
    for index in (0..count).rev() {
        bits.push(((value >> index) & 1) != 0);
    }
}

fn push_ue(bits: &mut Vec<bool>, value: u64) {
    let code_num = value + 1;
    let width = 64 - code_num.leading_zeros() as usize;
    bits.extend(std::iter::repeat_n(false, width - 1));
    push_bits(bits, code_num, width);
}

fn finish_bits(bits: &[bool]) -> Vec<u8> {
    let mut bytes = vec![0; bits.len().div_ceil(8)];
    for (index, &bit) in bits.iter().enumerate() {
        if bit {
            bytes[index / 8] |= 1 << (7 - index % 8);
        }
    }
    bytes
}

fn push_nal_hrd(bits: &mut Vec<bool>) {
    push_bits(bits, 1, 1); // nal_hrd_parameters_present_flag
    push_bits(bits, 0, 1); // vcl_hrd_parameters_present_flag
    push_bits(bits, 0, 1); // sub_pic_hrd_params_present_flag
    push_bits(bits, 3, 4); // bit_rate_scale
    push_bits(bits, 5, 4); // cpb_size_scale
    push_bits(bits, 23, 5); // initial_cpb_removal_delay_length_minus1
    push_bits(bits, 15, 5); // au_cpb_removal_delay_length_minus1
    push_bits(bits, 4, 5); // dpb_output_delay_length_minus1
    push_bits(bits, 0, 1); // fixed_pic_rate_general_flag
    push_bits(bits, 0, 1); // fixed_pic_rate_within_cvs_flag
    push_bits(bits, 0, 1); // low_delay_hrd_flag
    push_ue(bits, 1); // cpb_cnt_minus1: two entries
    for (bit_rate, cpb_size, cbr) in [(100, 200, true), (300, 400, false)] {
        push_ue(bits, bit_rate);
        push_ue(bits, cpb_size);
        push_bits(bits, u64::from(cbr), 1);
    }
}

#[test]
fn hrd_reads_common_information_and_each_cpb_entry() {
    let mut bits = Vec::new();
    push_nal_hrd(&mut bits);
    let bytes = finish_bits(&bits);
    let mut reader = BitReader::new(&bytes);
    let hrd = parse_hrd_parameters(&mut reader, true, 0).unwrap();
    assert!(hrd.nal_hrd_parameters_present_flag);
    assert!(!hrd.vcl_hrd_parameters_present_flag);
    assert_eq!(hrd.bit_rate_scale, Some(3));
    assert_eq!(hrd.cpb_size_scale, Some(5));
    assert_eq!(hrd.cpb_size_du_scale, None);
    assert_eq!(hrd.initial_cpb_removal_delay_length_minus1, Some(23));
    assert_eq!(hrd.dpb_output_delay_length_minus1, Some(4));
    assert_eq!(hrd.sub_layers.len(), 1);
    let layer = &hrd.sub_layers[0];
    assert!(!layer.fixed_pic_rate_within_cvs_flag);
    assert_eq!(layer.low_delay_hrd_flag, Some(false));
    assert_eq!(layer.cpb_cnt_minus1, Some(1));
    let entries = &layer.nal_hrd_parameters.as_ref().unwrap().cpb_entries;
    assert_eq!(entries.len(), 2);
    assert_eq!(entries[0].bit_rate_value_minus1, 100);
    assert_eq!(entries[1].cpb_size_value_minus1, 400);
    assert!(entries[0].cbr_flag);
    assert!(!entries[1].cbr_flag);
    assert!(layer.vcl_hrd_parameters.is_none());
    assert_eq!(reader.position(), bits.len());
}

#[test]
fn hrd_without_common_information_reads_only_sub_layers() {
    let mut bits = Vec::new();
    push_bits(&mut bits, 1, 1); // fixed_pic_rate_general_flag
    push_ue(&mut bits, 7); // elemental_duration_in_tc_minus1
    push_ue(&mut bits, 0); // cpb_cnt_minus1
    push_bits(&mut bits, 0, 1); // second sub-layer: not fixed in general
    push_bits(&mut bits, 0, 1); // nor within the CVS
    push_bits(&mut bits, 1, 1); // low delay
    let bytes = finish_bits(&bits);
    let mut reader = BitReader::new(&bytes);
    let hrd = parse_hrd_parameters(&mut reader, false, 1).unwrap();
    assert!(!hrd.nal_hrd_parameters_present_flag);
    assert_eq!(hrd.bit_rate_scale, None);
    assert_eq!(hrd.sub_layers.len(), 2);
    assert!(hrd.sub_layers[0].fixed_pic_rate_within_cvs_flag);
    assert_eq!(hrd.sub_layers[0].elemental_duration_in_tc_minus1, Some(7));
    assert_eq!(hrd.sub_layers[0].low_delay_hrd_flag, Some(false));
    assert_eq!(hrd.sub_layers[0].cpb_cnt_minus1, Some(0));
    assert_eq!(hrd.sub_layers[1].low_delay_hrd_flag, Some(true));
    assert_eq!(hrd.sub_layers[1].cpb_cnt_minus1, None);
    assert_eq!(reader.position(), bits.len());
}

#[test]
fn hrd_rejects_more_than_seven_sub_layers() {
    let mut reader = BitReader::new(&[0xff]);
    assert_eq!(
        parse_hrd_parameters(&mut reader, true, 7),
        Err(SyntaxError::InvalidSyntaxValue("maxNumSubLayersMinus1 must be at most 6"))
    );
    assert_eq!(reader.position(), 0);
}

#[test]
fn vui_reads_extended_sar_timing_hrd_and_restrictions() {
    let mut bits = Vec::new();
    push_bits(&mut bits, 1, 1); // aspect_ratio_info_present_flag
    push_bits(&mut bits, 255, 8); // EXTENDED_SAR
    push_bits(&mut bits, 4, 16);
    push_bits(&mut bits, 3, 16);
    push_bits(&mut bits, 0, 1); // no overscan info
    push_bits(&mut bits, 1, 1); // video signal type
    push_bits(&mut bits, 5, 3);
    push_bits(&mut bits, 1, 1);
    push_bits(&mut bits, 1, 1); // colour description
    push_bits(&mut bits, 1, 8);
    push_bits(&mut bits, 1, 8);
    push_bits(&mut bits, 1, 8);
    push_bits(&mut bits, 1, 1); // chroma location
    push_ue(&mut bits, 2);
    push_ue(&mut bits, 3);
    push_bits(&mut bits, 0b0011, 4); // neutral, field_seq, frame_field, display window
    for offset in [8, 0, 4, 0] {
        push_ue(&mut bits, offset);
    }
    push_bits(&mut bits, 1, 1); // timing info
    push_bits(&mut bits, 1001, 32);
    push_bits(&mut bits, 60000, 32);
    push_bits(&mut bits, 1, 1); // POC proportional to timing
    push_ue(&mut bits, 0);
    push_bits(&mut bits, 1, 1); // HRD present
    push_nal_hrd(&mut bits);
    push_bits(&mut bits, 1, 1); // bitstream restriction
    push_bits(&mut bits, 0b101, 3);
    for value in [0, 2, 1, 15, 15] {
        push_ue(&mut bits, value);
    }
    let bytes = finish_bits(&bits);
    let mut reader = BitReader::new(&bytes);
    let vui = parse_vui_parameters(&mut reader, 0).unwrap();
    assert_eq!(vui.aspect_ratio_idc, Some(255));
    assert_eq!(vui.sar_width, Some(4));
    assert_eq!(vui.sar_height, Some(3));
    assert_eq!(vui.overscan_appropriate_flag, None);
    assert_eq!(vui.video_format, Some(5));
    assert_eq!(vui.matrix_coeffs, Some(1));
    assert_eq!(vui.chroma_sample_loc_type_bottom_field, Some(3));
    assert!(vui.frame_field_info_present_flag);
    assert_eq!(vui.default_display_window, Some([8, 0, 4, 0]));
    let timing = vui.timing_info.as_ref().unwrap();
    assert_eq!(timing.num_units_in_tick, 1001);
    assert_eq!(timing.time_scale, 60000);
    assert_eq!(timing.num_ticks_poc_diff_one_minus1, Some(0));
    assert_eq!(timing.hrd_parameters.as_ref().unwrap().sub_layers.len(), 1);
    let restriction = vui.bitstream_restriction.unwrap();
    assert!(restriction.tiles_fixed_structure_flag);
    assert!(!restriction.motion_vectors_over_pic_boundaries_flag);
    assert_eq!(restriction.max_bytes_per_pic_denom, 2);
    assert_eq!(restriction.log2_max_mv_length_vertical, 15);
    assert_eq!(reader.position(), bits.len());
}

#[test]
fn minimal_vui_is_ten_clear_flags() {
    let mut reader = BitReader::new(&[0x00, 0x00]);
    let vui = parse_vui_parameters(&mut reader, 0).unwrap();
    assert!(!vui.aspect_ratio_info_present_flag);
    assert!(vui.timing_info.is_none());
    assert!(vui.bitstream_restriction.is_none());
    assert_eq!(reader.position(), 10);

    let mut reader = BitReader::new(&[0x80]);
    assert!(matches!(
        parse_vui_parameters(&mut reader, 0),
        Err(SyntaxError::UnexpectedEnd { .. })
    ));
}

use h265rs::{
    parse_access_unit_delimiter_rbsp, parse_end_of_bitstream_rbsp, parse_end_of_sequence_rbsp, parse_filler_data_rbsp,
    parse_profile_tier_level, parse_rbsp_slice_segment_trailing_bits, parse_short_term_reference_picture_set,
    derive_reference_set, derive_reference_set_from_sets, slice_short_term_reference_set, BitReader, SeiRbsp,
    ShortTermReferencePictureSet, SliceReferencePictureSet, SyntaxError,
};

fn pack(bits: &str) -> Vec<u8> {
    let bits: Vec<u8> = bits.bytes().filter(|b| *b == b'0' || *b == b'1').collect();
    let mut bytes = vec![0u8; bits.len().div_ceil(8)];
    for (index, bit) in bits.iter().enumerate() {
        if *bit == b'1' {
            bytes[index / 8] |= 1 << (7 - index % 8);
        }
    }
    bytes
}

#[test]
fn access_unit_delimiter_reads_pic_type_and_trailing_bits() {
    let data = pack("010 1 0000");
    let mut reader = BitReader::new(&data);
    assert_eq!(parse_access_unit_delimiter_rbsp(&mut reader).unwrap().pic_type, 2);
    let bad = pack("010 0 0000");
    let mut reader = BitReader::new(&bad);
    assert_eq!(parse_access_unit_delimiter_rbsp(&mut reader), Err(SyntaxError::InvalidAlignmentBit));
    let mut short = BitReader::new(&[]);
    assert_eq!(
        parse_access_unit_delimiter_rbsp(&mut short),
        Err(SyntaxError::UnexpectedEnd { requested: 3, remaining: 0 })
    );
}

#[test]
fn empty_rbsps_accept_only_empty_payloads() {
    let mut empty = BitReader::new(&[]);
    assert_eq!(parse_end_of_sequence_rbsp(&mut empty), Ok(()));
    assert_eq!(parse_end_of_bitstream_rbsp(&mut empty), Ok(()));
    let mut reader = BitReader::new(&[0x80]);
    assert_eq!(parse_end_of_sequence_rbsp(&mut reader), Err(SyntaxError::InvalidSyntaxValue("end-of-sequence RBSP")));
    assert_eq!(parse_end_of_bitstream_rbsp(&mut reader), Err(SyntaxError::InvalidSyntaxValue("end-of-bitstream RBSP")));
}

#[test]
fn filler_data_counts_ff_bytes() {
    let data = [0xff, 0xff, 0x80];
    let mut reader = BitReader::new(&data);
    assert_eq!(parse_filler_data_rbsp(&mut reader).unwrap().filler_byte_count, 2);
    assert_eq!(reader.bits_remaining(), 0);
}

#[test]
fn slice_trailing_bits_count_cabac_zero_words() {
    let mut reader = BitReader::new(&[0x80, 0x00, 0x00, 0x00, 0x00]);
    assert_eq!(parse_rbsp_slice_segment_trailing_bits(&mut reader), Ok(2));
    let mut reader = BitReader::new(&[0x80, 0x00, 0x01]);
    assert_eq!(
        parse_rbsp_slice_segment_trailing_bits(&mut reader),
        Err(SyntaxError::InvalidSyntaxValue("cabac_zero_word must equal 0x0000"))
    );
    let mut reader = BitReader::new(&[0x80, 0x00]);
    assert_eq!(
        parse_rbsp_slice_segment_trailing_bits(&mut reader),
        Err(SyntaxError::InvalidSyntaxValue("trailing CABAC data must be a whole number of words"))
    );
}

#[test]
fn sei_messages_accumulate_ff_coded_type_and_size() {
    let data = [0xff, 0x05, 0x02, 0xaa, 0xbb, 0x80];
    let mut reader = BitReader::new(&data);
    let sei = SeiRbsp::parse(&mut reader).unwrap();
    assert_eq!(sei.messages.len(), 1);
    assert_eq!(sei.messages[0].payload_type, 260);
    assert_eq!(sei.messages[0].payload_size, 2);
    assert_eq!(sei.messages[0].payload, vec![0xaa, 0xbb]);
    let truncated = [0x05, 0x04, 0xaa];
    let mut reader = BitReader::new(&truncated);
    assert_eq!(SeiRbsp::parse(&mut reader), Err(SyntaxError::UnexpectedEnd { requested: 8, remaining: 0 }));
}

fn profile_bits(idc: &str) -> String {
    format!("00 0 {idc} 0100{} 0000 {}", "0".repeat(28), "0".repeat(44))
}

#[test]
fn profile_tier_level_reads_general_and_sub_layer_fields() {
    let bits = format!("{} 01111000", profile_bits("00001"));
    let data = pack(&bits);
    let mut reader = BitReader::new(&data);
    let ptl = parse_profile_tier_level(&mut reader, true, 0).unwrap();
    let general = ptl.general_profile.unwrap();
    assert_eq!(general.profile_idc, 1);
    assert!(general.compatibility_flags[1]);
    assert!(!general.compatibility_flags[0]);
    assert_eq!(ptl.general_level_idc, 120);
    assert!(ptl.sub_layers.is_empty());
    assert!(ptl.reserved_zero_2bits.is_empty());

    let bits = format!("01011101 1 0 {} {}", "00".repeat(7), profile_bits("00010"));
    let data = pack(&bits);
    let mut reader = BitReader::new(&data);
    let ptl = parse_profile_tier_level(&mut reader, false, 1).unwrap();
    assert!(ptl.general_profile.is_none());
    assert_eq!(ptl.general_level_idc, 93);
    assert_eq!(ptl.reserved_zero_2bits, vec![0; 7]);
    assert_eq!(ptl.sub_layers.len(), 1);
    assert_eq!(ptl.sub_layers[0].profile.as_ref().unwrap().profile_idc, 2);
    assert_eq!(ptl.sub_layers[0].level_idc, None);

    let mut reader = BitReader::new(&data);
    assert_eq!(
        parse_profile_tier_level(&mut reader, false, 8),
        Err(SyntaxError::InvalidSyntaxValue("maxNumSubLayersMinus1 must be at most 7"))
    );
    let mut reader = BitReader::new(&data[..3]);
    assert!(matches!(parse_profile_tier_level(&mut reader, false, 1), Err(SyntaxError::UnexpectedEnd { .. })));
}

#[test]
fn short_term_reference_sets_parse_and_derive_poc_lists() {
    let direct = pack("011 010 1 1 010 0 1 1");
    let mut reader = BitReader::new(&direct);
    let first = parse_short_term_reference_picture_set(&mut reader, 0, &[], 2).unwrap();
    assert_eq!(first.num_negative_pics, Some(2));
    assert_eq!(first.num_positive_pics, Some(1));
    assert_eq!(first.delta_poc_s0_minus1, vec![0, 1]);
    assert_eq!(first.used_by_curr_pic_s0_flag, vec![true, false]);
    assert_eq!(first.num_delta_pocs, 3);
    assert_eq!(derive_reference_set(10, &first), (vec![9], vec![11], vec![7]));

    let predicted = pack("1 0 1 1 01 00 1");
    let mut reader = BitReader::new(&predicted);
    let second = parse_short_term_reference_picture_set(&mut reader, 1, std::slice::from_ref(&first), 2).unwrap();
    assert!(second.inter_ref_pic_set_prediction_flag);
    assert_eq!(second.reference_rps_idx, Some(0));
    assert_eq!(second.used_by_curr_pic_flag, vec![true, false, false, true]);
    assert_eq!(second.use_delta_flag, vec![false, true, false, false]);
    assert_eq!(second.num_delta_pocs, 3);

    let sets = vec![first.clone(), second.clone()];
    assert_eq!(derive_reference_set_from_sets(10, &sets, 1), Some((vec![], vec![11], vec![12, 10])));
    assert_eq!(derive_reference_set_from_sets(10, &sets, 0), Some((vec![9], vec![11], vec![7])));
    assert_eq!(derive_reference_set_from_sets(10, &sets, 2), None);

    let mut reader = BitReader::new(&predicted);
    assert_eq!(
        parse_short_term_reference_picture_set(&mut reader, 1, &[], 2),
        Err(SyntaxError::InvalidSyntaxValue("referenced short-term RPS has not been parsed"))
    );

    let slice = SliceReferencePictureSet {
        short_term_ref_pic_set_sps_flag: false,
        short_term_ref_pic_set_idx: None,
        short_term_ref_pic_set: Some(first.clone()),
        num_long_term_sps: None,
        num_long_term_pics: 0,
        long_term_pictures: vec![],
    };
    assert_eq!(slice_short_term_reference_set(&slice), Some(&first));
}

fn empty_set(index: usize) -> ShortTermReferencePictureSet {
    ShortTermReferencePictureSet {
        index,
        inter_ref_pic_set_prediction_flag: false,
        reference_rps_idx: None,
        delta_idx_minus1: None,
        delta_rps_sign: None,
        abs_delta_rps_minus1: None,
        used_by_curr_pic_flag: vec![],
        use_delta_flag: vec![],
        num_negative_pics: None,
        num_positive_pics: None,
        delta_poc_s0_minus1: vec![],
        used_by_curr_pic_s0_flag: vec![],
        delta_poc_s1_minus1: vec![],
        used_by_curr_pic_s1_flag: vec![],
        num_delta_pocs: 0,
    }
}

#[test]
fn inter_predicted_sets_shift_inherited_entries_by_delta_rps() {
    let mut a = empty_set(0);
    a.num_negative_pics = Some(1);
    a.num_positive_pics = Some(0);
    a.delta_poc_s0_minus1 = vec![0];
    a.used_by_curr_pic_s0_flag = vec![true];
    a.num_delta_pocs = 1;
    let mut b = empty_set(1);
    b.inter_ref_pic_set_prediction_flag = true;
    b.reference_rps_idx = Some(0);
    b.delta_rps_sign = Some(true);
    b.abs_delta_rps_minus1 = Some(0);
    b.used_by_curr_pic_flag = vec![true, true];
    b.use_delta_flag = vec![false, false];
    let sets = vec![a.clone(), b.clone()];
    assert_eq!(derive_reference_set_from_sets(10, &sets, 1), Some((vec![9, 8], vec![], vec![])));
    let mut forward = b.clone();
    forward.delta_rps_sign = Some(false);
    forward.abs_delta_rps_minus1 = Some(2);
    let sets = vec![a, forward];
    assert_eq!(derive_reference_set_from_sets(10, &sets, 1), Some((vec![], vec![12, 13], vec![])));
}

use h265rs::{
    BitReader, PictureParameterSetSyntax, PpsDeblockingFilterSyntax, PpsExtensionSyntax, PpsRangeExtensionSyntax, PpsTileSyntax,
    SyntaxError,
};

fn pack(bits: &str) -> Vec<u8> {
    let clean: Vec<u8> = bits.bytes().filter(|b| *b == b'0' || *b == b'1').collect();
    let mut out = vec![0u8; (clean.len() + 7) / 8];
    for (i, b) in clean.iter().enumerate() {
        if *b == b'1' {
            out[i / 8] |= 0x80 >> (i % 8);
        }
    }
    out
}

// Head, coding flags with a QP delta depth of 1, and offsets of zero.
const HEAD: &str = "1 1 0 0 000 0 0 1 1 1 0 1 1 010 1 1 0 0 0 0";

#[test]
fn pps_with_tiles_and_deblocking_is_parsed_field_by_field() {
    let bits = format!(
        "{HEAD} 1 0 010 1 0 011 1 1 1 0 0 010 011 0 0 1 0 0 1 00000"
    );
    let data = pack(&bits);
    let mut reader = BitReader::new(&data);
    let pps = PictureParameterSetSyntax::parse(&mut reader).unwrap();
    assert_eq!(pps.pps_pic_parameter_set_id, 0);
    assert_eq!(pps.num_extra_slice_header_bits, 0);
    assert!(pps.transform_skip_enabled_flag);
    assert!(pps.cu_qp_delta_enabled_flag);
    assert_eq!(pps.diff_cu_qp_delta_depth, Some(1));
    assert!(pps.tiles_enabled_flag);
    assert!(!pps.entropy_coding_sync_enabled_flag);
    assert_eq!(
        pps.tiles,
        Some(PpsTileSyntax {
            num_tile_columns_minus1: 1,
            num_tile_rows_minus1: 0,
            uniform_spacing_flag: false,
            column_width_minus1: vec![2],
            row_height_minus1: vec![],
            loop_filter_across_tiles_enabled_flag: true,
        })
    );
    assert!(pps.pps_loop_filter_across_slices_enabled_flag);
    assert_eq!(
        pps.deblocking_filter_control,
        Some(PpsDeblockingFilterSyntax {
            deblocking_filter_override_enabled_flag: false,
            pps_deblocking_filter_disabled_flag: false,
            pps_beta_offset_div2: Some(1),
            pps_tc_offset_div2: Some(-1),
        })
    );
    assert!(!pps.pps_scaling_list_data_present_flag);
    assert_eq!(pps.log2_parallel_merge_level_minus2, 0);
    assert!(!pps.pps_extension_present_flag);
    assert_eq!(pps.pps_extension, None);
    assert_eq!(reader.position(), data.len() * 8);
}

#[test]
fn pps_range_extension_is_parsed_before_the_trailing_bits() {
    let bits = format!("{HEAD} 0 0 1 0 0 0 1 0 1 1000 0000 1 1 0 1 1 1 0");
    let data = pack(&bits);
    let mut reader = BitReader::new(&data);
    let pps = PictureParameterSetSyntax::parse(&mut reader).unwrap();
    assert!(pps.pps_loop_filter_across_slices_enabled_flag);
    assert_eq!(pps.deblocking_filter_control, None);
    assert!(pps.pps_extension_present_flag);
    assert_eq!(
        pps.pps_extension,
        Some(PpsExtensionSyntax {
            pps_range_extension_flag: true,
            pps_multilayer_extension_flag: false,
            pps_3d_extension_flag: false,
            pps_scc_extension_flag: false,
            pps_extension_4bits: 0,
            range_extension: Some(PpsRangeExtensionSyntax {
                log2_max_transform_skip_block_size_minus2: Some(0),
                cross_component_prediction_enabled_flag: true,
                chroma_qp_offset_list_enabled_flag: false,
                diff_cu_chroma_qp_offset_depth: None,
                chroma_qp_offset_list_len_minus1: None,
                cb_qp_offset_list: vec![],
                cr_qp_offset_list: vec![],
                log2_sao_offset_scale_luma: 0,
                log2_sao_offset_scale_chroma: 0,
            }),
            extension_data: vec![],
            trailing_bits_parsed: true,
        })
    );
    assert_eq!(reader.position(), data.len() * 8);
}

#[test]
fn pps_range_extension_reads_interleaved_chroma_qp_offsets() {
    let data = pack("0 1 1 010 010 011 011 010 1 1");
    let mut reader = BitReader::new(&data);
    let range = PpsRangeExtensionSyntax::parse(&mut reader, false).unwrap();
    assert_eq!(range.log2_max_transform_skip_block_size_minus2, None);
    assert!(range.chroma_qp_offset_list_enabled_flag);
    assert_eq!(range.diff_cu_chroma_qp_offset_depth, Some(0));
    assert_eq!(range.chroma_qp_offset_list_len_minus1, Some(1));
    assert_eq!(range.cb_qp_offset_list, vec![1, -1]);
    assert_eq!(range.cr_qp_offset_list, vec![-1, 1]);
}

#[test]
fn pps_errors_are_reported() {
    let data = pack(&format!("{HEAD}"));
    let mut reader = BitReader::new(&data);
    assert!(matches!(PictureParameterSetSyntax::parse(&mut reader), Err(SyntaxError::UnexpectedEnd { .. })));
    let data = pack(&format!("{HEAD} 0 0 1 0 0 0 1 0 1 0 1 0 0000 1 0000000"));
    let mut reader = BitReader::new(&data);
    assert_eq!(
        PictureParameterSetSyntax::parse(&mut reader),
        Err(SyntaxError::InvalidSyntaxValue("PPS multilayer, 3D and SCC extensions are not parsed"))
    );
    let data = pack(&format!("{HEAD} 0 0 1 0 0 0 1 0 0 0000000"));
    let mut reader = BitReader::new(&data);
    assert_eq!(PictureParameterSetSyntax::parse(&mut reader), Err(SyntaxError::InvalidAlignmentBit));
}

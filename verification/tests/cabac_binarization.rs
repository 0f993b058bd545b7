use h265rs::{
    parse_cross_component_prediction, parse_motion_vector_difference, parse_sao, parse_sao_component, MotionVectorDifferenceSyntax,
    SaoComponentSyntax, SaoSyntax, CabacContext, CabacContextTable, CabacDecoder, CrossComponentPredictionSyntax, SyntaxError,
};

const MIXED: [u8; 8] = [0xa5, 0x5a, 0xf0, 0x0f, 0x33, 0xcc, 0x99, 0x66];
const ONES_FIRST: [u8; 8] = [0xf7, 0x63, 0x12, 0xd4, 0xee, 0xb3, 0xc2, 0x24];

#[test]
fn exp_golomb_bins_decode_with_growing_order() {
    let mut decoder = CabacDecoder::new(&MIXED, 1).unwrap();
    assert_eq!(decoder.read_exp_golomb(0), Ok(2));
    assert_eq!(decoder.bit_position(), 12);
    let mut decoder = CabacDecoder::new(&MIXED, 1).unwrap();
    assert_eq!(decoder.read_exp_golomb(2), Ok(8));
    assert_eq!(decoder.bit_position(), 14);
}

#[test]
fn truncated_rice_and_fixed_length_bins_decode() {
    let mut decoder = CabacDecoder::new(&MIXED, 1).unwrap();
    assert_eq!(decoder.read_truncated_rice(7, 1), Ok(3));
    assert_eq!(decoder.bit_position(), 12);
    let mut decoder = CabacDecoder::new(&MIXED, 1).unwrap();
    assert_eq!(decoder.read_fixed_bypass(13), Ok(10));
    assert_eq!(decoder.bit_position(), 13);
}

#[test]
fn rice_parameters_out_of_range_are_rejected_without_reading() {
    let mut decoder = CabacDecoder::new(&MIXED, 1).unwrap();
    assert!(matches!(
        decoder.read_truncated_rice(7, 64),
        Err(SyntaxError::InvalidSyntaxValue(_))
    ));
    assert!(matches!(
        decoder.read_coeff_abs_level_remaining_with_parameters(0, 5),
        Err(SyntaxError::InvalidSyntaxValue(_))
    ));
    assert!(matches!(
        decoder.read_limited_exp_golomb(1, 29),
        Err(SyntaxError::InvalidSyntaxValue(_))
    ));
    assert_eq!(decoder.bit_position(), 9);
}

#[test]
fn coefficient_remainders_use_the_rice_prefix_or_the_escape() {
    let mut decoder = CabacDecoder::new(&MIXED, 1).unwrap();
    assert_eq!(decoder.read_coeff_abs_level_remaining(0), Ok(1));
    assert_eq!(decoder.bit_position(), 11);
    let mut decoder = CabacDecoder::new(&MIXED, 1).unwrap();
    assert_eq!(decoder.read_coeff_abs_level_remaining_with_parameters(0, 2), Ok(6));
    assert_eq!(decoder.bit_position(), 13);
    let mut decoder = CabacDecoder::new(&ONES_FIRST, 1).unwrap();
    assert_eq!(decoder.read_coeff_abs_level_remaining(0), Ok(6));
    assert_eq!(decoder.bit_position(), 17);
}

#[test]
fn limited_exp_golomb_caps_the_prefix_extension() {
    let mut decoder = CabacDecoder::new(&ONES_FIRST, 1).unwrap();
    assert_eq!(decoder.read_limited_exp_golomb(1, 15), Ok(67));
    assert_eq!(decoder.bit_position(), 21);
    let mut decoder = CabacDecoder::new(&ONES_FIRST, 1).unwrap();
    assert_eq!(decoder.read_limited_exp_golomb(0, 27), Ok(126_203_621));
    assert_eq!(decoder.bit_position(), 37);
}

#[test]
fn palette_values_and_index_counts_decode() {
    let mut decoder = CabacDecoder::new(&MIXED, 1).unwrap();
    assert_eq!(decoder.read_palette_value(8, false), Ok(17));
    assert_eq!(decoder.bit_position(), 15);
    let mut decoder = CabacDecoder::new(&MIXED, 1).unwrap();
    assert_eq!(decoder.read_palette_value(4, true), Ok(10));
    assert_eq!(decoder.bit_position(), 13);
    let mut decoder = CabacDecoder::new(&ONES_FIRST, 1).unwrap();
    assert_eq!(decoder.read_palette_num_indices(3), Ok(50));
    assert_eq!(decoder.bit_position(), 20);
    let mut decoder = CabacDecoder::new(&MIXED, 1).unwrap();
    assert!(matches!(
        decoder.read_palette_num_indices(u64::MAX),
        Err(SyntaxError::InvalidSyntaxValue(_))
    ));
}

#[test]
fn exp_golomb_reports_the_end_of_the_data() {
    let mut decoder = CabacDecoder::new(&[0xf7, 0x63], 1).unwrap();
    assert!(matches!(
        decoder.read_exp_golomb(0),
        Err(SyntaxError::UnexpectedEnd { .. })
    ));
}

#[test]
fn palette_run_suffix_uses_a_truncated_binary_range() {
    let mut decoder = CabacDecoder::new(&MIXED, 1).unwrap();
    assert_eq!(decoder.read_palette_run_suffix(10, 3), Ok(2));
    assert_eq!(decoder.bit_position(), 11);
}


fn standard(data: &[u8]) -> CabacDecoder<'_> {
    CabacDecoder::with_standard_contexts(data, 1, 26).unwrap()
}

#[test]
fn inter_pred_idc_follows_its_two_bin_tree() {
    for data in [MIXED, ONES_FIRST] {
        for (w, h) in [(8u64, 8u64), (8, 4)] {
            let mut decoder = standard(&data);
            let mut manual = standard(&data);
            let value = decoder.read_inter_pred_idc(w, h, 1).unwrap();
            let expected = if w + h == 12 {
                if manual.decode_syntax_context(CabacContextTable::InterPredIdc, 4).unwrap() == 0 { 0 } else { 2 }
            } else if manual.decode_syntax_context(CabacContextTable::InterPredIdc, 1).unwrap() != 0 {
                2
            } else if manual.decode_syntax_context(CabacContextTable::InterPredIdc, 4).unwrap() == 0 {
                0
            } else {
                1
            };
            assert_eq!(value, expected);
            assert_eq!(decoder.bit_position(), manual.bit_position());
        }
    }
}

#[test]
fn part_mode_reads_context_bins_then_amp_bypass_bins() {
    for data in [MIXED, ONES_FIRST] {
        let mut decoder = standard(&data);
        let mut manual = standard(&data);
        let value = decoder.read_part_mode_with_amp(false, false, true).unwrap();
        let first = manual.decode_syntax_context(CabacContextTable::PartMode, 0).unwrap();
        let expected = if first != 0 {
            0
        } else if manual.decode_syntax_context(CabacContextTable::PartMode, 1).unwrap() != 0 {
            if manual.decode_bypass().unwrap() != 0 {
                1
            } else if manual.decode_bypass().unwrap() == 0 {
                4
            } else {
                5
            }
        } else if manual.decode_syntax_context(CabacContextTable::PartMode, 2).unwrap() != 0 {
            2
        } else if manual.decode_bypass().unwrap() != 0 {
            3
        } else if manual.decode_bypass().unwrap() == 0 {
            6
        } else {
            7
        };
        assert_eq!(value, expected);
        assert_eq!(decoder.bit_position(), manual.bit_position());

        let mut intra = standard(&data);
        let mut intra_manual = standard(&data);
        let mode = intra.read_part_mode_with_amp(true, true, false).unwrap();
        let bin = intra_manual.decode_syntax_context(CabacContextTable::PartMode, 0).unwrap();
        assert_eq!(mode, if bin != 0 { 0 } else { 1 });
    }
}

#[test]
fn cu_qp_delta_abs_counts_context_bins_then_escapes() {
    for data in [MIXED, ONES_FIRST] {
        let mut decoder = standard(&data);
        let mut manual = standard(&data);
        let value = decoder.read_cu_qp_delta_abs().unwrap();
        let mut prefix = 0;
        while prefix < 5 {
            let increment = if prefix == 0 { 0 } else { 1 };
            if manual.decode_syntax_context(CabacContextTable::CuQpDeltaAbs, increment).unwrap() == 0 {
                break;
            }
            prefix += 1;
        }
        let expected = if prefix == 5 { 5 + manual.read_exp_golomb(0).unwrap() } else { prefix };
        assert_eq!(value, expected);
        assert_eq!(decoder.bit_position(), manual.bit_position());
    }
}

fn manual_unary(manual: &mut CabacDecoder<'_>, table: CabacContextTable, max: u64, source: impl Fn(u64) -> Option<usize>) -> u64 {
    let mut prefix = 0;
    while prefix < max {
        let bin = match source(prefix) {
            Some(increment) => manual.decode_syntax_context(table, increment).unwrap(),
            None => manual.decode_bypass().unwrap(),
        };
        if bin == 0 {
            break;
        }
        prefix += 1;
    }
    prefix
}

#[test]
fn context_truncated_rice_uses_context_bins_then_bypass_bins() {
    for data in [MIXED, ONES_FIRST] {
        for repeated in [false, true] {
            let mut decoder = standard(&data);
            let mut manual = standard(&data);
            let table = CabacContextTable::LastSigCoeffXPrefix;
            let value = if repeated {
                decoder.read_truncated_rice_repeated_context(table, 2, 4, 6, 0).unwrap()
            } else {
                decoder.read_truncated_rice_context(table, 2, 4, 6, 0).unwrap()
            };
            let prefix = manual_unary(&mut manual, table, 6, |k| {
                if k >= 4 {
                    None
                } else if repeated {
                    Some(2)
                } else {
                    Some(2 + k as usize)
                }
            });
            assert_eq!(value, prefix);
            assert_eq!(decoder.bit_position(), manual.bit_position());
        }
    }
}

#[test]
fn palette_run_prefix_selects_contexts_by_bin_index() {
    for data in [MIXED, ONES_FIRST] {
        for copy_above in [false, true] {
            let mut decoder = standard(&data);
            let mut manual = standard(&data);
            let value = decoder.read_palette_run_prefix(40, 2, copy_above).unwrap();
            let expected = manual_unary(&mut manual, CabacContextTable::PaletteRunPrefix, 6, |k| {
                if k == 0 && !copy_above {
                    Some(1)
                } else if copy_above {
                    match k {
                        0 => Some(5),
                        1 | 2 => Some(6),
                        3 | 4 => Some(7),
                        _ => None,
                    }
                } else {
                    match k {
                        1 | 2 => Some(3),
                        3 | 4 => Some(4),
                        _ => None,
                    }
                }
            });
            assert_eq!(value, expected);
            assert_eq!(decoder.bit_position(), manual.bit_position());
        }
    }
    let mut decoder = standard(&MIXED);
    assert_eq!(decoder.read_palette_run_prefix(0, 0, false), Ok(0));
    assert_eq!(decoder.bit_position(), 9);
}

#[test]
fn lps_decision_follows_the_range_table() {
    let mut decoder = CabacDecoder::new(&[0xE9, 0x00, 0x00, 0x00], 1).unwrap();
    decoder.context_mut(0).unwrap().state_index = 32;
    assert_eq!(decoder.decode_decision(0), Ok(1));
    assert_eq!(decoder.contexts()[0], CabacContext::new(24, 0));
    assert_eq!(decoder.interval_range, 360);
    assert_eq!(decoder.offset, 8);
    assert_eq!(decoder.current_range(), 360);
    assert_eq!(decoder.current_offset(), 8);
}

#[test]
fn cross_component_prediction_reads_the_scale_then_its_sign() {
    for data in [MIXED, ONES_FIRST, [0u8; 8], [0x80; 8]] {
        let mut decoder = CabacDecoder::new(&data, 1).unwrap();
        let parsed = parse_cross_component_prediction(&mut decoder).unwrap();
        let mut manual = CabacDecoder::new(&data, 1).unwrap();
        let abs = manual.decode_decision(0).unwrap();
        let sign = if abs != 0 { Some(manual.decode_decision(0).unwrap() != 0) } else { None };
        assert_eq!(parsed, CrossComponentPredictionSyntax { log2_res_scale_abs_plus1: abs, res_scale_sign_flag: sign });
        assert_eq!(decoder.contexts(), manual.contexts());
        assert_eq!(decoder.bit_position(), manual.bit_position());
    }
}

fn manual_component(manual: &mut CabacDecoder<'_>) -> SaoComponentSyntax {
    let type_idx = manual.decode_decision(0).unwrap();
    let mut offset_abs = [0u64; 4];
    for value in offset_abs.iter_mut() {
        *value = manual.decode_decision(0).unwrap();
    }
    let mut offset_sign = Vec::new();
    let (band_position, eo_class) = if type_idx == 1 {
        for value in offset_abs {
            if value != 0 {
                offset_sign.push(manual.decode_decision(0).unwrap() != 0);
            }
        }
        (Some(manual.decode_decision(0).unwrap()), None)
    } else if type_idx != 0 {
        (None, Some(manual.decode_decision(0).unwrap()))
    } else {
        (None, None)
    };
    SaoComponentSyntax { type_idx, offset_abs, offset_sign, band_position, eo_class }
}

#[test]
fn motion_vector_difference_reads_flags_then_remainders_and_signs() {
    for data in [MIXED, ONES_FIRST, [0u8; 8], [0x80; 8]] {
        let mut decoder = CabacDecoder::new(&data, 1).unwrap();
        let parsed = parse_motion_vector_difference(&mut decoder).unwrap();
        let mut manual = CabacDecoder::new(&data, 1).unwrap();
        let g0 = [manual.decode_decision(0).unwrap() != 0, manual.decode_decision(0).unwrap() != 0];
        let mut g1 = [false; 2];
        for c in 0..2 {
            if g0[c] {
                g1[c] = manual.decode_decision(0).unwrap() != 0;
            }
        }
        let mut minus2 = [None; 2];
        let mut sign = [None; 2];
        for c in 0..2 {
            if g0[c] {
                if g1[c] {
                    minus2[c] = Some(manual.decode_decision(0).unwrap());
                }
                sign[c] = Some(manual.decode_decision(0).unwrap() != 0);
            }
        }
        assert_eq!(
            parsed,
            MotionVectorDifferenceSyntax {
                abs_mvd_greater0_flag: g0,
                abs_mvd_greater1_flag: g1,
                abs_mvd_minus2: minus2,
                mvd_sign_flag: sign,
            }
        );
        assert_eq!(decoder.contexts(), manual.contexts());
        assert_eq!(decoder.bit_position(), manual.bit_position());
    }
}

#[test]
fn sao_component_reads_type_offsets_and_class_or_band() {
    for data in [MIXED, ONES_FIRST, [0u8; 8], [0x80; 8]] {
        let mut decoder = CabacDecoder::new(&data, 1).unwrap();
        let parsed = parse_sao_component(&mut decoder).unwrap();
        let mut manual = CabacDecoder::new(&data, 1).unwrap();
        assert_eq!(parsed, manual_component(&mut manual));
        assert_eq!(decoder.bit_position(), manual.bit_position());
    }
}

#[test]
fn sao_without_neighbours_reads_luma_then_chroma() {
    for data in [MIXED, ONES_FIRST, [0u8; 8], [0x80; 8]] {
        let mut decoder = CabacDecoder::new(&data, 1).unwrap();
        let parsed = parse_sao(&mut decoder, false, false, true, true, true).unwrap();
        let mut manual = CabacDecoder::new(&data, 1).unwrap();
        let luma = manual_component(&mut manual);
        let chroma = manual_component(&mut manual);
        assert_eq!(parsed, SaoSyntax { merge_left_flag: false, merge_up_flag: false, luma: Some(luma), chroma: Some(chroma) });
        assert_eq!(decoder.bit_position(), manual.bit_position());
    }
}

#[test]
fn sao_merge_flags_and_disabled_components() {
    for data in [MIXED, ONES_FIRST, [0u8; 8], [0x80; 8]] {
        let mut decoder = CabacDecoder::new(&data, 1).unwrap();
        let parsed = parse_sao(&mut decoder, true, true, true, false, true).unwrap();
        let mut manual = CabacDecoder::new(&data, 1).unwrap();
        let left = manual.decode_decision(0).unwrap() != 0;
        let up = if left { false } else { manual.decode_decision(0).unwrap() != 0 };
        let expected = if left || up {
            SaoSyntax { merge_left_flag: left, merge_up_flag: up, luma: None, chroma: None }
        } else {
            SaoSyntax { merge_left_flag: false, merge_up_flag: false, luma: Some(manual_component(&mut manual)), chroma: None }
        };
        assert_eq!(parsed, expected);
        assert_eq!(decoder.bit_position(), manual.bit_position());
    }
    let mut decoder = CabacDecoder::new(&MIXED, 1).unwrap();
    let before = decoder.bit_position();
    let parsed = parse_sao(&mut decoder, false, false, false, true, false).unwrap();
    assert_eq!(parsed, SaoSyntax { merge_left_flag: false, merge_up_flag: false, luma: None, chroma: None });
    assert_eq!(decoder.bit_position(), before);
}

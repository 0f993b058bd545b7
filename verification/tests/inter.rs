use h265rs::{
    default_weighted_prediction, derive_chroma_motion_vector, derive_merge_candidates, derive_motion_vector,
    fractional_chroma_sample, fractional_luma_sample, inter_predict, weighted_prediction, Block, ChromaFormat,
    DecodedPicture, MotionVector, MotionVectorPrediction, PictureFormat, PredictionLists, SamplePlane,
    WeightParameters,
};

#[test]
fn weighted_prediction_matches_widened_scalar_math() {
    let values = [i32::MIN, -65_536, -1, 0, 1, 255, 65_535, i32::MAX];
    for bit_depth in [8_u8, 10, 16] {
        let shift1 = u32::from((14_i32 - i32::from(bit_depth)).max(2) as u8);
        let shift2 = u32::from((15_i32 - i32::from(bit_depth)).max(3) as u8);
        let offset1 = 1_i32 << shift1.saturating_sub(1);
        let offset2 = 1_i32 << shift2.saturating_sub(1);
        let max = ((1_i64 << bit_depth) - 1) as i32;
        for flags in [(false, false), (true, false), (false, true), (true, true)] {
            let reversed = values.iter().rev().copied().collect::<Vec<_>>();
            let actual = default_weighted_prediction(&values, &reversed, flags.0, flags.1, bit_depth);
            let expected: Vec<_> = values
                .iter()
                .zip(values.iter().rev())
                .map(|(&a, &b)| {
                    let value = match flags {
                        (true, false) => (i64::from(a) + i64::from(offset1)) >> shift1,
                        (false, true) => (i64::from(b) + i64::from(offset1)) >> shift1,
                        (true, true) => (i64::from(a) + i64::from(b) + i64::from(offset2)) >> shift2,
                        (false, false) => 0,
                    };
                    value.clamp(0, i64::from(max)) as i32
                })
                .collect();
            assert_eq!(actual, expected, "bit depth {bit_depth}, flags {flags:?}");
        }
    }
}

#[test]
fn motion_vectors_wrap_to_sixteen_bits_and_round_to_integer_samples() {
    let predictor = MotionVector { x: 32_767, y: -7 };
    let difference = MotionVector { x: 1, y: 0 };
    assert_eq!(derive_motion_vector(predictor, difference, false, false), MotionVector { x: -32_768, y: -7 });
    assert_eq!(derive_motion_vector(MotionVector { x: -7, y: 9 }, MotionVector { x: 1, y: 1 }, false, true), MotionVector { x: -4, y: 12 });
    assert_eq!(derive_chroma_motion_vector(MotionVector { x: -7, y: 9 }, (2, 1)), MotionVector { x: -7, y: 18 });
}

#[test]
fn explicit_weighted_prediction_rounds_and_offsets() {
    let w0 = WeightParameters { log2_denom: 2, weight: 3, offset: 1 };
    let w1 = WeightParameters { log2_denom: 1, weight: 5, offset: 4 };
    assert_eq!(weighted_prediction(&[10], &[20], (true, false), (w0, w1), 8), vec![9]);
    assert_eq!(weighted_prediction(&[10], &[20], (false, true), (w0, w1), 8), vec![29]);
    assert_eq!(weighted_prediction(&[10], &[20], (true, true), (w0, w1), 8), vec![19]);
    assert_eq!(weighted_prediction(&[10], &[20], (false, false), (w0, w1), 8), vec![0]);
    assert_eq!(weighted_prediction(&[1000], &[0], (true, false), (w0, w1), 8), vec![255]);
}

fn prediction(reference_index: usize, x: i32) -> MotionVectorPrediction {
    MotionVectorPrediction { reference_index, motion_vector: MotionVector { x, y: 0 } }
}

#[test]
fn merge_candidates_are_distinct_and_filled_to_the_maximum() {
    let a = PredictionLists { list0: Some(prediction(0, 4)), list1: None };
    let b = PredictionLists { list0: None, list1: Some(prediction(1, 8)) };
    let list = derive_merge_candidates(&[a, b, a], 5, true);
    assert_eq!(list.len(), 5);
    assert_eq!(list[0], a);
    assert_eq!(list[1], b);
    assert_eq!(list[2], PredictionLists { list0: Some(prediction(0, 4)), list1: Some(prediction(1, 8)) });
    assert_eq!(list[3], PredictionLists { list0: Some(prediction(0, 0)), list1: Some(prediction(0, 0)) });
    assert_eq!(list[4], PredictionLists { list0: Some(prediction(1, 0)), list1: Some(prediction(1, 0)) });
    for i in 0..list.len() {
        for j in 0..i {
            assert_ne!(list[i], list[j]);
        }
    }
    assert!(derive_merge_candidates(&[a], 0, false).is_empty());
    let single = derive_merge_candidates(&[], 2, false);
    assert_eq!(single, vec![
        PredictionLists { list0: Some(prediction(0, 0)), list1: None },
        PredictionLists { list0: Some(prediction(1, 0)), list1: None },
    ]);
}

#[test]
fn interpolation_of_a_flat_plane_is_flat() {
    let plane = SamplePlane::new(8, 8, 100);
    for frac_x in 0..4 {
        for frac_y in 0..4 {
            let expected = if frac_x != 0 && frac_y != 0 { 2 } else { 100 };
            assert_eq!(fractional_luma_sample(&plane, 3, 3, frac_x, frac_y, 8), expected);
        }
    }
    for frac_x in 0..8 {
        for frac_y in 0..8 {
            assert_eq!(fractional_chroma_sample(&plane, 3, 3, frac_x, frac_y, 8), 100);
        }
    }
}

#[test]
fn half_sample_luma_interpolation_uses_the_eight_tap_filter() {
    let plane = SamplePlane::from_samples(8, 1, vec![0, 0, 0, 0, 64, 64, 64, 64]).unwrap();
    assert_eq!(fractional_luma_sample(&plane, 3, 0, 2, 0, 8), 32);
    assert_eq!(fractional_luma_sample(&plane, 3, 0, 1, 0, 8), 13);
}

#[test]
fn inter_prediction_averages_two_references() {
    let format = PictureFormat::new(8, 8, 8, 8, ChromaFormat::Yuv420, false).unwrap();
    let mut first = DecodedPicture::new(format);
    let mut second = DecodedPicture::new(format);
    assert!(first.set_plane(0, SamplePlane::new(8, 8, 40)));
    assert!(second.set_plane(0, SamplePlane::new(8, 8, 60)));
    let lists = PredictionLists { list0: Some(prediction(0, 0)), list1: Some(prediction(1, 4)) };
    let block = Block::square(0, 0, 4);
    let predicted = inter_predict(&[&first, &second], block, lists, ChromaFormat::Yuv420, 0, 14);
    assert_eq!(predicted, vec![13; 16]);
    let only_first = PredictionLists { list0: Some(prediction(0, 0)), list1: Some(prediction(9, 0)) };
    assert_eq!(inter_predict(&[&first, &second], block, only_first, ChromaFormat::Yuv420, 0, 14), vec![10; 16]);
    let chroma = inter_predict(&[&first, &second], block, lists, ChromaFormat::Yuv420, 1, 14);
    assert_eq!(chroma, vec![0; 4]);
}

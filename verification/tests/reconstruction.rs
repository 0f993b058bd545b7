use h265rs::{
    Block, ChromaFormat, DecodedPicture, IntraPredictionMode, MotionVector, MotionVectorPrediction,
    PictureDecodeContext, PictureFormat, PredictionLists, TransformParameters,
};

fn format() -> PictureFormat {
    PictureFormat::new(16, 16, 8, 8, ChromaFormat::Yuv420, false).unwrap()
}

fn filled_picture(value: i32) -> DecodedPicture {
    let mut picture = DecodedPicture::new(format());
    for sample in picture.plane_mut(0).unwrap().samples_mut() {
        *sample = value;
    }
    picture
}

#[test]
fn intra_reconstruction_adds_the_residual_to_the_dc_prediction() {
    let mut picture = filled_picture(100);
    let context = PictureDecodeContext::new(format(), 16);
    let block = Block { x: 4, y: 4, width: 4, height: 4 };
    let transform = TransformParameters {
        component: 0,
        bit_depth: 8,
        qp: 4,
        intra_4x4: false,
        transform_bypass: true,
    };
    context.reconstruct_intra(&mut picture, block, IntraPredictionMode::Dc, &[1; 16], transform);
    let plane = picture.plane(0).unwrap();
    assert_eq!(plane.get(4, 4), Some(132));
    assert_eq!(plane.get(7, 7), Some(132));
    assert_eq!(plane.get(3, 4), Some(100));
    assert_eq!(plane.get(8, 7), Some(100));
}

#[test]
fn intra_reconstruction_leaves_a_missing_plane_alone() {
    let format = PictureFormat::new(16, 16, 8, 8, ChromaFormat::Monochrome, false).unwrap();
    let mut picture = DecodedPicture::new(format);
    let context = PictureDecodeContext::new(format, 16);
    let transform = TransformParameters {
        component: 1,
        bit_depth: 8,
        qp: 4,
        intra_4x4: false,
        transform_bypass: true,
    };
    context.reconstruct_intra(
        &mut picture,
        Block { x: 0, y: 0, width: 4, height: 4 },
        IntraPredictionMode::Dc,
        &[1; 16],
        transform,
    );
    assert!(picture.plane(1).is_none());
    assert_eq!(picture.plane(0).unwrap().get(0, 0), Some(0));
}

#[test]
fn inter_reconstruction_writes_the_weighted_prediction_for_a_zero_residual() {
    let reference = filled_picture(50);
    let mut picture = filled_picture(7);
    let context = PictureDecodeContext::new(format(), 16);
    let lists = PredictionLists {
        list0: Some(MotionVectorPrediction {
            reference_index: 0,
            motion_vector: MotionVector { x: 0, y: 0 },
        }),
        list1: None,
    };
    let transform = TransformParameters {
        component: 0,
        bit_depth: 8,
        qp: 4,
        intra_4x4: false,
        transform_bypass: true,
    };
    context.reconstruct_inter(
        &mut picture,
        Block { x: 8, y: 0, width: 4, height: 4 },
        &[&reference],
        lists,
        &[0; 16],
        transform,
    );
    // An integer motion vector reads the reference sample itself, and the
    // single-list weighting then rounds it down by 14 - bitDepth bits.
    let plane = picture.plane(0).unwrap();
    assert_eq!(plane.get(8, 0), Some((50 + 32) >> 6));
    assert_eq!(plane.get(11, 3), Some((50 + 32) >> 6));
    assert_eq!(plane.get(7, 0), Some(7));
    assert_eq!(plane.get(8, 4), Some(7));
}

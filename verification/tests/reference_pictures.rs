use h265rs::{
    build_reference_picture_lists, derive_collocated_picture_and_no_backward_prediction_flag, diff_picture_order_count,
    generate_unavailable_picture, ChromaFormat, DecodedPicture, DecodedPictureBuffer, PictureFormat, PictureMarking,
    ReferenceSet,
};

fn format() -> PictureFormat {
    PictureFormat::new(4, 4, 8, 8, ChromaFormat::Yuv420, false).unwrap()
}

fn entry(poc: i64, layer_id: u8, marking: PictureMarking, output_needed: bool) -> ReferenceSet {
    ReferenceSet { picture: DecodedPicture::new(format()), picture_order_count: poc, layer_id, marking, output_needed }
}

#[test]
fn reference_lists_repeat_candidates_cyclically() {
    let lists = build_reference_picture_lists(8, &[7, 6], &[9], &[1], 3, 10);
    assert_eq!(lists.list0, vec![7, 6, 9]);
    assert_eq!(lists.list1, vec![9, 7, 6, 1, 9, 7, 6, 1, 9, 7]);
    let short = build_reference_picture_lists(10, &[8], &[12], &[], 4, 3);
    assert_eq!(short.list0, vec![8, 12, 8, 12]);
    assert_eq!(short.list1, vec![12, 8, 12]);
    let empty = build_reference_picture_lists(10, &[], &[], &[], 4, 3);
    assert!(empty.list0.is_empty() && empty.list1.is_empty());
    assert_eq!(diff_picture_order_count(3, 10), -7);
}

#[test]
fn collocated_picture_and_backward_flag() {
    assert_eq!(derive_collocated_picture_and_no_backward_prediction_flag(8, true, false, 0, &[7], &[6, 8]), Some((6, true)));
    assert_eq!(derive_collocated_picture_and_no_backward_prediction_flag(8, true, true, 0, &[7], &[9]), Some((7, false)));
    assert_eq!(derive_collocated_picture_and_no_backward_prediction_flag(8, false, true, 0, &[7], &[6]), Some((7, false)));
    assert_eq!(derive_collocated_picture_and_no_backward_prediction_flag(8, true, true, 1, &[7], &[6]), None);
}

#[test]
fn unavailable_pictures_are_filled_with_the_given_value() {
    let picture = generate_unavailable_picture(format(), 128);
    assert_eq!(picture.plane(0).unwrap().samples(), &[128; 16]);
    assert_eq!(picture.plane(2).unwrap().samples(), &[128; 4]);
}

#[test]
fn buffer_evicts_the_first_unused_picture_not_awaiting_output() {
    let mut dpb = DecodedPictureBuffer::new(2);
    dpb.insert(entry(1, 0, PictureMarking::ShortTerm, false));
    dpb.insert(entry(2, 0, PictureMarking::Unused, false));
    dpb.insert(entry(3, 0, PictureMarking::ShortTerm, false));
    let pocs: Vec<i64> = dpb.pictures().iter().map(|p| p.picture_order_count).collect();
    assert_eq!(pocs, vec![1, 3]);
    dpb.insert(entry(4, 0, PictureMarking::ShortTerm, false));
    let pocs: Vec<i64> = dpb.pictures().iter().map(|p| p.picture_order_count).collect();
    assert_eq!(pocs, vec![3, 4]);
    let mut empty = DecodedPictureBuffer::new(0);
    empty.insert(entry(1, 0, PictureMarking::ShortTerm, false));
    assert!(empty.pictures().is_empty());
    assert_eq!(empty.capacity(), 0);
}

#[test]
fn marking_operations_touch_only_the_current_layer() {
    let mut dpb = DecodedPictureBuffer::new(8);
    dpb.insert(entry(4, 0, PictureMarking::ShortTerm, false));
    dpb.insert(entry(2, 0, PictureMarking::ShortTerm, false));
    dpb.insert(entry(6, 1, PictureMarking::ShortTerm, false));
    dpb.insert(entry(8, 0, PictureMarking::ShortTerm, false));
    dpb.mark_reference_pocs(8, 0, &[2], &[4]);
    let markings: Vec<PictureMarking> = dpb.pictures().iter().map(|p| p.marking).collect();
    assert_eq!(markings, vec![PictureMarking::LongTerm, PictureMarking::ShortTerm, PictureMarking::ShortTerm, PictureMarking::ShortTerm]);
    let refs: Vec<i64> = dpb.references(0, PictureMarking::ShortTerm).iter().map(|p| p.picture_order_count).collect();
    assert_eq!(refs, vec![2, 8]);
    dpb.apply_reference_set(8, 0, &entry(4, 0, PictureMarking::ShortTerm, false));
    let markings: Vec<PictureMarking> = dpb.pictures().iter().map(|p| p.marking).collect();
    assert_eq!(markings, vec![PictureMarking::ShortTerm, PictureMarking::Unused, PictureMarking::ShortTerm, PictureMarking::ShortTerm]);
    dpb.mark_layer_unused(1);
    assert_eq!(dpb.pictures()[2].marking, PictureMarking::Unused);
    assert_eq!(dpb.pictures()[0].marking, PictureMarking::ShortTerm);
}

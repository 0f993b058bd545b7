use h265rs::{HevcProfile, ProfileConstraintError, ProfileConstraintReport};

#[test]
fn ctu_read_bits_limit_uses_annex_a_ratio() {
    let report = ProfileConstraintReport {
        profile: HevcProfile::Main,
        ctb_log2_size_y: 6,
        raw_ctu_bits: 49_152,
        tile_column_widths_in_luma_samples: vec![1920],
        tile_row_heights_in_luma_samples: vec![1088],
    };
    assert!(report.validate_ctu_read_bits(&[81_920]).is_ok());
    assert_eq!(
        report.validate_ctu_read_bits(&[81_921]),
        Err(ProfileConstraintError::CtuReadBits { ctu_index: 0, calls: 81_921, raw_ctu_bits: 49_152 })
    );
}

#[test]
fn still_picture_report_rejects_more_than_one_picture() {
    let report = ProfileConstraintReport {
        profile: HevcProfile::MainStillPicture,
        ctb_log2_size_y: 4,
        raw_ctu_bits: 2_560,
        tile_column_widths_in_luma_samples: vec![64],
        tile_row_heights_in_luma_samples: vec![64],
    };
    assert!(report.validate_picture_count(1).is_ok());
    assert_eq!(report.validate_picture_count(2), Err(ProfileConstraintError::PictureCount(2)));
}

#[test]
fn ctu_read_bits_reports_the_first_ctu_over_the_limit() {
    let report = ProfileConstraintReport {
        profile: HevcProfile::Main10,
        ctb_log2_size_y: 4,
        raw_ctu_bits: 3,
        tile_column_widths_in_luma_samples: vec![],
        tile_row_heights_in_luma_samples: vec![],
    };
    assert_eq!(
        report.validate_ctu_read_bits(&[5, 6, 7, 100]),
        Err(ProfileConstraintError::CtuReadBits { ctu_index: 1, calls: 6, raw_ctu_bits: 3 })
    );
    assert_eq!(report.validate_ctu_read_bits(&[]), Ok(()));
    assert_eq!(report.validate_picture_count(7), Ok(()));
}

#[test]
fn saturating_read_bit_counts_never_exceed_a_saturated_limit() {
    let report = ProfileConstraintReport {
        profile: HevcProfile::Main10StillPicture,
        ctb_log2_size_y: 5,
        raw_ctu_bits: u64::MAX,
        tile_column_widths_in_luma_samples: vec![],
        tile_row_heights_in_luma_samples: vec![],
    };
    assert_eq!(report.validate_ctu_read_bits(&[u64::MAX]), Ok(()));
    assert_eq!(report.validate_picture_count(0), Err(ProfileConstraintError::PictureCount(0)));
}

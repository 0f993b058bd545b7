use h265rs::{adaptive_colour_transform, cross_component_residual, inverse_transform, residual_bypass, scale_transform_coefficients};

#[test]
fn flat_levels_scale_with_the_level_scale_table() {
    assert_eq!(scale_transform_coefficients(&[1; 16], 4, 0, 8, None), vec![20; 16]);
    let scaling = [32; 16];
    assert_eq!(scale_transform_coefficients(&[1; 16], 4, 6, 8, Some(&scaling)), vec![80; 16]);
    assert_eq!(scale_transform_coefficients(&[-1; 16], 4, 1, 8, None), vec![-22; 16]);
}

#[test]
fn a_single_dc_coefficient_spreads_through_both_stages() {
    let mut coefficients = [0; 16];
    coefficients[0] = 64;
    assert_eq!(inverse_transform(&coefficients, 4, false, 8), vec![1; 16]);
    let mut mixed = [0; 16];
    mixed[1] = 100;
    mixed[4] = -50;
    assert_eq!(
        inverse_transform(&mixed, 4, false, 8),
        vec![1, 0, -1, -2, 1, 0, -1, -1, 1, 1, 0, -1, 2, 1, 0, -1]
    );
    let mut dst = [0; 16];
    dst[0] = 100;
    assert_eq!(inverse_transform(&dst, 4, true, 8), vec![0, 0, 0, 0, 0, 1, 1, 1, 0, 1, 1, 1, 0, 1, 1, 1]);
    assert_eq!(
        inverse_transform(&[1000; 16], 4, false, 8),
        vec![116, -22, 22, 4, -22, 4, -4, -1, 22, -4, 4, 1, 4, -1, 1, 0]
    );
    assert!(inverse_transform(&[], 0, false, 8).is_empty());
}

#[test]
fn scaled_coefficients_use_the_sixteen_bit_coefficient_range() {
    let mut levels = [0; 16];
    levels[0] = 30;
    let mut expected = vec![0; 16];
    expected[0] = 19200;
    assert_eq!(scale_transform_coefficients(&levels, 4, 30, 8, None), expected);
    assert_eq!(scale_transform_coefficients(&[1000; 16], 4, 40, 8, None), vec![32767; 16]);
    assert_eq!(scale_transform_coefficients(&[-1000; 16], 4, 40, 8, None), vec![-32768; 16]);
}

#[test]
fn vertical_bypass_accumulates_down_columns() {
    let mut residual = vec![1, 2, 3, 4];
    residual_bypass(&mut residual, 2, false);
    assert_eq!(residual, vec![1, 2, 4, 6]);
    let mut saturating = vec![i32::MAX, 0, 1, 0];
    residual_bypass(&mut saturating, 2, false);
    assert_eq!(saturating, vec![i32::MAX, 0, i32::MAX, 0]);
}

#[test]
fn cross_component_prediction_adds_scaled_luma() {
    let mut residual = vec![10, -10];
    cross_component_residual(&mut residual, &[8, 8], 2, 8, 8);
    assert_eq!(residual, vec![12, -8]);
    let mut wider = vec![0];
    cross_component_residual(&mut wider, &[8], 8, 8, 10);
    assert_eq!(wider, vec![32]);
}

#[test]
fn colour_transform_in_bypass_mode_is_the_lossless_ycocg_inverse() {
    let mut y = vec![10];
    let mut b = vec![4];
    let mut r = vec![2];
    adaptive_colour_transform(&mut y, &mut b, &mut r, 8, 8, true);
    assert_eq!((y[0], b[0], r[0]), (12, 7, 9));
}

#[test]
fn colour_transform_doubles_chroma_before_the_lossy_inverse() {
    let mut y = vec![10, 0];
    let mut b = vec![4, 0];
    let mut r = vec![2, 0];
    adaptive_colour_transform(&mut y, &mut b, &mut r, 8, 8, false);
    assert_eq!(y, vec![14, 0]);
    assert_eq!(b, vec![4, 0]);
    assert_eq!(r, vec![8, 0]);
}

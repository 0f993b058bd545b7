use h265rs::{decode_last_coeff_coordinate, residual_scan_order, SyntaxError};

#[test]
fn last_coefficient_coordinates_follow_the_prefix_and_suffix_rule() {
    assert_eq!(decode_last_coeff_coordinate(3, None, 2), Ok(3));
    assert_eq!(decode_last_coeff_coordinate(4, Some(0), 3), Ok(4));
    assert_eq!(decode_last_coeff_coordinate(5, Some(1), 3), Ok(7));
    assert_eq!(decode_last_coeff_coordinate(6, Some(3), 4), Ok(11));
    assert_eq!(decode_last_coeff_coordinate(9, Some(7), 5), Ok(31));
}

#[test]
fn last_coefficient_coordinates_outside_the_rule_are_rejected() {
    assert!(matches!(decode_last_coeff_coordinate(5, Some(2), 3), Err(SyntaxError::InvalidSyntaxValue(_))));
    assert!(matches!(decode_last_coeff_coordinate(4, None, 3), Err(SyntaxError::InvalidSyntaxValue(_))));
    assert!(matches!(decode_last_coeff_coordinate(7, Some(0), 3), Err(SyntaxError::InvalidSyntaxValue(_))));
    assert!(matches!(decode_last_coeff_coordinate(2, None, 64), Err(SyntaxError::InvalidSyntaxValue(_))));
    assert!(matches!(decode_last_coeff_coordinate(200, Some(0), 5), Err(SyntaxError::InvalidSyntaxValue(_))));
}

#[test]
fn residual_scan_order_selects_diagonal_horizontal_or_vertical() {
    let diagonal = residual_scan_order(4, 0).unwrap();
    assert_eq!(diagonal.len(), 16);
    assert_eq!(diagonal[..3], [(0, 0), (0, 1), (1, 0)]);
    let horizontal = residual_scan_order(4, 1).unwrap();
    assert_eq!(horizontal[..5], [(0, 0), (1, 0), (2, 0), (3, 0), (0, 1)]);
    let vertical = residual_scan_order(2, 2).unwrap();
    assert_eq!(vertical, vec![(0, 0), (0, 1), (1, 0), (1, 1)]);
    assert!(matches!(residual_scan_order(4, 3), Err(SyntaxError::InvalidSyntaxValue(_))));
    assert!(matches!(residual_scan_order(3, 0), Err(SyntaxError::InvalidSyntaxValue(_))));
}

use rs_rmsd::reflection::{correction_matrix, correction_sign, sign_product, Sign};
use rs_rmsd::shape::{check_shapes, AlignError};

#[test]
fn equal_shapes_give_point_count() {
    assert_eq!(check_shapes(2, 3, 2, 3), Ok(2));
    assert_eq!(check_shapes(1, 3, 1, 3), Ok(1));
}

#[test]
fn row_count_mismatch_rejected() {
    assert_eq!(check_shapes(2, 3, 3, 3), Err(AlignError::ShapeMismatch));
    assert_eq!(check_shapes(0, 3, 1, 3), Err(AlignError::ShapeMismatch));
}

#[test]
fn column_count_other_than_three_rejected() {
    assert_eq!(check_shapes(2, 2, 2, 2), Err(AlignError::ShapeMismatch));
    assert_eq!(check_shapes(2, 3, 2, 4), Err(AlignError::ShapeMismatch));
}

#[test]
fn empty_input_rejected() {
    assert_eq!(check_shapes(0, 3, 0, 3), Err(AlignError::EmptyInput));
}

#[test]
fn sign_products() {
    assert_eq!(sign_product(Sign::Negative, Sign::Negative), Sign::Positive);
    assert_eq!(sign_product(Sign::Negative, Sign::Positive), Sign::Negative);
    assert_eq!(sign_product(Sign::Positive, Sign::Zero), Sign::Zero);
}

#[test]
fn reflection_flips_last_axis() {
    assert_eq!(correction_sign(Sign::Negative, Sign::Positive), -1);
    assert_eq!(correction_sign(Sign::Positive, Sign::Negative), -1);
    assert_eq!(correction_sign(Sign::Positive, Sign::Positive), 1);
    assert_eq!(correction_sign(Sign::Negative, Sign::Negative), 1);
}

#[test]
fn degenerate_determinant_keeps_rotation() {
    assert_eq!(correction_sign(Sign::Zero, Sign::Positive), 1);
    assert_eq!(correction_sign(Sign::Negative, Sign::Zero), 1);
}

#[test]
fn correction_matrix_is_diagonal() {
    assert_eq!(correction_matrix(1), [[1, 0, 0], [0, 1, 0], [0, 0, 1]]);
    assert_eq!(correction_matrix(-1), [[1, 0, 0], [0, 1, 0], [0, 0, -1]]);
}

#[test]
fn mirrored_sets_get_proper_rotation() {
    // det(U) * det(V) < 0 signals a mirror image; the corrected rotation's
    // determinant det(U) * d * det(V) must still be +1.
    for (u, uv) in [(Sign::Negative, -1i32), (Sign::Positive, 1i32)] {
        for (v, vv) in [(Sign::Negative, -1i32), (Sign::Positive, 1i32)] {
            let d = correction_sign(u, v) as i32;
            let m = correction_matrix(d as i8);
            assert_eq!(uv * (m[2][2] as i32) * vv, 1);
        }
    }
}

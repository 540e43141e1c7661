use aoclib_rs::matrix::{DimensionMismatch, Matrix, RowVec};
use num_bigint::BigInt;
use num_rational::BigRational;

fn bi(n: i64) -> BigRational {
    BigRational::from_integer(BigInt::from(n))
}

#[test]
fn test_matrix_zeros() {
    let m = Matrix::zeros(4, 5);
    assert_eq!(
        m,
        Matrix::from_int_vecs(vec![
            vec![0, 0, 0, 0, 0],
            vec![0, 0, 0, 0, 0],
            vec![0, 0, 0, 0, 0],
            vec![0, 0, 0, 0, 0]
        ])
    )
}

#[test]
fn test_matrix_zeros_no_rows() {
    let m = Matrix::zeros(0, 5);
    assert_eq!(m, Matrix::new(Vec::new()));
}

#[test]
fn test_matrix_zeros_no_cols() {
    let m = Matrix::zeros(3, 0);
    assert_eq!(m, Matrix::new(Vec::new()));
}

#[test]
fn test_matrix_zeros_empty() {
    let m = Matrix::zeros(0, 0);
    assert_eq!(m, Matrix::new(Vec::new()));
}

#[test]
fn test_matrix_add_assign_good() {
    let mut m1 = Matrix::from_int_vecs(vec![vec![3, 5, 7], vec![8, 2, 3], vec![9, 2, 3]]);
    let m2 = Matrix::from_int_vecs(vec![vec![8, 2, 4], vec![1, 6, 7], vec![2, 3, 5]]);
    m1.add_assign(&m2).unwrap();
    assert_eq!(
        m1,
        Matrix::from_int_vecs(vec![vec![11, 7, 11], vec![9, 8, 10], vec![11, 5, 8]])
    );
}

#[test]
fn test_matrix_add_assign_both_empty() {
    let mut m1 = Matrix::empty();
    let m2 = Matrix::empty();
    m1.add_assign(&m2).unwrap();
    assert_eq!(m1, Matrix::empty());
}

#[test]
fn test_matrix_add_assign_left_empty() {
    let mut m1 = Matrix::empty();
    let m1_copy = m1.clone();
    let m2 = Matrix::from_int_vecs(vec![vec![8, 2, 4], vec![1, 6, 7]]);
    assert!(m1.add_assign(&m2).is_err());
    assert_eq!(m1, m1_copy);
}

#[test]
fn test_matrix_add_assign_right_empty() {
    let mut m1 = Matrix::from_int_vecs(vec![vec![3, 5, 7], vec![8, 2, 3], vec![9, 2, 3]]);
    let m1_copy = m1.clone();
    let m2 = Matrix::empty();
    assert!(m1.add_assign(&m2).is_err());
    assert_eq!(m1, m1_copy);
}

#[test]
fn test_matrix_add_assign_row_mismatch() {
    let mut m1 = Matrix::from_int_vecs(vec![vec![3, 5, 7], vec![8, 2, 3], vec![9, 2, 3]]);
    let m1_copy = m1.clone();
    let m2 = Matrix::from_int_vecs(vec![vec![8, 2, 4], vec![1, 6, 7]]);
    assert!(m1.add_assign(&m2).is_err());
    assert_eq!(m1, m1_copy);
}

#[test]
fn test_matrix_add_assign_col_mismatch() {
    let mut m1 = Matrix::from_int_vecs(vec![vec![3, 5], vec![8, 2]]);
    let m1_copy = m1.clone();
    let m2 = Matrix::from_int_vecs(vec![vec![8, 2, 4], vec![1, 6, 7]]);
    assert!(m1.add_assign(&m2).is_err());
    assert_eq!(m1, m1_copy);
}

#[test]
fn test_matrix_add_good() {
    let m1 = Matrix::from_int_vecs(vec![vec![3, 5, 7], vec![8, 2, 3], vec![9, 2, 3]]);
    let m2 = Matrix::from_int_vecs(vec![vec![8, 2, 4], vec![1, 6, 7], vec![2, 3, 5]]);
    let result = m1.add(&m2).unwrap();
    assert_eq!(
        result,
        Matrix::from_int_vecs(vec![vec![11, 7, 11], vec![9, 8, 10], vec![11, 5, 8]])
    );
}

#[test]
fn test_matrix_add_empty() {
    let m1 = Matrix::empty();
    let m2 = Matrix::empty();
    let result = m1.add(&m2).unwrap();
    assert_eq!(result, Matrix::empty());
}

#[test]
fn test_matrix_add_row_mismatch() {
    let m1 = Matrix::from_int_vecs(vec![vec![3, 5, 7], vec![8, 2, 3], vec![9, 2, 3]]);
    let m2 = Matrix::from_int_vecs(vec![vec![8, 2, 4], vec![1, 6, 7]]);
    assert!(m1.add(&m2).is_err());
}

#[test]
fn test_matrix_add_col_mismatch() {
    let m1 = Matrix::from_int_vecs(vec![vec![3, 5], vec![8, 2]]);
    let m2 = Matrix::from_int_vecs(vec![vec![8, 2, 4], vec![1, 6, 7]]);
    assert!(m1.add(&m2).is_err());
}

#[test]
fn test_matrix_add_error_kinds() {
    let mut m1 = Matrix::from_int_vecs(vec![vec![3, 5], vec![8, 2]]);
    let taller = Matrix::from_int_vecs(vec![vec![8, 2], vec![1, 6], vec![0, 0]]);
    assert_eq!(m1.add_assign(&taller), Err(DimensionMismatch::Heights(2, 3)));
    let wider = Matrix::from_int_vecs(vec![vec![8, 2, 4], vec![1, 6, 7]]);
    assert_eq!(m1.add_assign(&wider), Err(DimensionMismatch::Widths(2, 3)));
    let mut rv = RowVec::from_int_vec(vec![1, 2, 3]);
    let longer = RowVec::from_int_vec(vec![1, 2, 3, 4]);
    assert_eq!(rv.add_assign(&longer), Err(DimensionMismatch::RowSize(3, 4)));
}

#[test]
fn test_matrix_matrix_mul_good() {
    let m1 = Matrix::from_int_vecs(vec![vec![3, 4], vec![7, 2], vec![1, 5]]);
    let m2 = Matrix::from_int_vecs(vec![vec![5, 6, 2, 3], vec![8, 3, 9, 7]]);
    let result = m1.matrix_mul(&m2).unwrap();
    assert_eq!(
        result,
        Matrix::from_int_vecs(vec![
            vec![47, 30, 42, 37],
            vec![51, 48, 32, 35],
            vec![45, 21, 47, 38],
        ])
    );
}

#[test]
fn test_matrix_matrix_mul_both_empty() {
    let m1 = Matrix::empty();
    let m2 = Matrix::empty();
    let result = m1.matrix_mul(&m2).unwrap();
    assert_eq!(result, Matrix::empty());
}

#[test]
fn test_matrix_matrix_mul_left_empty() {
    let m1 = Matrix::empty();
    let m2 = Matrix::zeros(3, 4);
    assert!(m1.matrix_mul(&m2).is_err());
}

#[test]
fn test_matrix_matrix_mul_right_empty() {
    let m1 = Matrix::zeros(2, 3);
    let m2 = Matrix::empty();
    assert!(m1.matrix_mul(&m2).is_err());
}

#[test]
fn test_matrix_matrix_mul_mismatch() {
    let m1 = Matrix::zeros(3, 3);
    let m2 = Matrix::zeros(4, 4);
    assert!(m1.matrix_mul(&m2).is_err());
}

#[test]
fn test_matrix_matrix_mul_error_kinds() {
    let m1 = Matrix::empty();
    let m2 = Matrix::zeros(3, 4);
    assert_eq!(m1.matrix_mul(&m2), Err(DimensionMismatch::MulEmpty));
    let m3 = Matrix::zeros(3, 3);
    let m4 = Matrix::zeros(4, 4);
    assert_eq!(m3.matrix_mul(&m4), Err(DimensionMismatch::MulShape(3, 4)));
}

#[test]
fn test_matrix_is_empty_true() {
    assert!(Matrix::empty().is_empty());
}

#[test]
fn test_matrix_is_empty_false() {
    assert!(!Matrix::zeros(1, 1).is_empty());
}

#[test]
fn test_matrix_height_good() {
    assert_eq!(Matrix::zeros(2, 3).height(), 2);
}

#[test]
fn test_matrix_height_empty() {
    assert_eq!(Matrix::empty().height(), 0);
}

#[test]
fn test_matrix_width_good() {
    assert_eq!(Matrix::zeros(2, 3).width(), 3);
}

#[test]
fn test_matrix_width_empty() {
    assert_eq!(Matrix::empty().width(), 0);
}

#[test]
fn test_matrix_append_row_good() {
    let mut m = Matrix::zeros(2, 3);
    let v = RowVec::zeros(3);
    m.append_row(v);
    assert_eq!(m, Matrix::zeros(3, 3));
}

#[test]
fn test_matrix_append_row_empty() {
    let mut m = Matrix::empty();
    let v = RowVec::zeros(3);
    m.append_row(v);
    assert_eq!(m, Matrix::zeros(1, 3));
}

#[test]
fn test_matrix_remove_row_good() {
    let mut m = Matrix::from_int_vecs(vec![vec![1, 2, 3], vec![4, 5, 6], vec![7, 8, 9]]);
    m.remove_row(1);
    assert_eq!(m, Matrix::from_int_vecs(vec![vec![1, 2, 3], vec![7, 8, 9]]));
}

#[test]
fn test_matrix_remove_row_first() {
    let mut m = Matrix::from_int_vecs(vec![vec![1, 2, 3], vec![4, 5, 6], vec![7, 8, 9]]);
    m.remove_row(0);
    assert_eq!(m, Matrix::from_int_vecs(vec![vec![4, 5, 6], vec![7, 8, 9]]));
}

#[test]
fn test_matrix_remove_row_last() {
    let mut m = Matrix::from_int_vecs(vec![vec![1, 2, 3], vec![4, 5, 6], vec![7, 8, 9]]);
    m.remove_row(2);
    assert_eq!(m, Matrix::from_int_vecs(vec![vec![1, 2, 3], vec![4, 5, 6]]));
}

#[test]
fn test_matrix_remove_row_only() {
    let mut m = Matrix::from_int_vecs(vec![vec![1, 2, 3]]);
    m.remove_row(0);
    assert_eq!(m, Matrix::empty());
}

#[test]
fn test_matrix_is_zeros_true() {
    assert!(Matrix::zeros(2, 3).is_zeros());
}

#[test]
fn test_matrix_is_zeros_false() {
    assert!(!Matrix::from_int_vecs(vec![vec![1]]).is_zeros());
}

#[test]
fn test_matrix_is_zeros_empty() {
    assert!(Matrix::empty().is_zeros());
}

#[test]
fn test_matrix_get_column_copy_good() {
    let m = Matrix::from_int_vecs(vec![vec![1, 2, 3], vec![4, 5, 6], vec![7, 8, 9]]);
    assert_eq!(
        m.get_column_copy(1),
        Matrix::from_int_vecs(vec![vec![2], vec![5], vec![8]])
    );
}

#[test]
fn test_matrix_get_column_copy_first() {
    let m = Matrix::from_int_vecs(vec![vec![1, 2, 3], vec![4, 5, 6], vec![7, 8, 9]]);
    assert_eq!(
        m.get_column_copy(0),
        Matrix::from_int_vecs(vec![vec![1], vec![4], vec![7]])
    );
}

#[test]
fn test_matrix_get_column_copy_last() {
    let m = Matrix::from_int_vecs(vec![vec![1, 2, 3], vec![4, 5, 6], vec![7, 8, 9]]);
    assert_eq!(
        m.get_column_copy(2),
        Matrix::from_int_vecs(vec![vec![3], vec![6], vec![9]])
    );
}

#[test]
fn test_matrix_get_column_copy_only() {
    let m = Matrix::from_int_vecs(vec![vec![3], vec![6], vec![9]]);
    assert_eq!(
        m.get_column_copy(0),
        Matrix::from_int_vecs(vec![vec![3], vec![6], vec![9]])
    );
}

#[test]
fn test_matrix_mul_assign_good() {
    let mut m = Matrix::from_int_vecs(vec![vec![1, 2, 3], vec![4, 5, 6], vec![7, 8, 9]]);
    m.scalar_mul_assign(&bi(5));
    assert_eq!(
        m,
        Matrix::from_int_vecs(vec![vec![5, 10, 15], vec![20, 25, 30], vec![35, 40, 45]])
    );
}

#[test]
fn test_matrix_mul_assign_empty() {
    let mut m = Matrix::empty();
    m.scalar_mul_assign(&bi(5));
    assert_eq!(m, Matrix::empty());
}

#[test]
fn test_matrix_mul_good() {
    let m = Matrix::from_int_vecs(vec![vec![1, 2, 3], vec![4, 5, 6], vec![7, 8, 9]]);
    let result = m.scalar_mul(&bi(5));
    assert_eq!(
        result,
        Matrix::from_int_vecs(vec![vec![5, 10, 15], vec![20, 25, 30], vec![35, 40, 45]])
    );
}

#[test]
fn test_matrix_mul_empty() {
    let m = Matrix::empty();
    let result = m.scalar_mul(&bi(5));
    assert_eq!(result, Matrix::empty());
}

#[test]
fn test_matrix_index() {
    assert_eq!(
        *Matrix::from_int_vecs(vec![vec![1, 2, 3], vec![4, 5, 6], vec![7, 8, 9]]).get(1, 2),
        bi(6)
    );
}

#[test]
fn test_matrix_index_mut() {
    let mut m = Matrix::from_int_vecs(vec![vec![1, 2, 3], vec![4, 5, 6], vec![7, 8, 9]]);
    m.set(1, 2, bi(0));
    assert_eq!(
        m,
        Matrix::from_int_vecs(vec![vec![1, 2, 3], vec![4, 5, 0], vec![7, 8, 9]])
    );
}

#[test]
fn test_matrix_mul_identity_concrete() {
    // an identity matrix built from the reduction of a full-rank square input
    let mut square = Matrix::from_int_vecs(vec![vec![2, 1], vec![1, 1]]);
    square.rref();
    assert_eq!(square, Matrix::from_int_vecs(vec![vec![1, 0], vec![0, 1]]));
    let m = Matrix::from_int_vecs(vec![vec![3, 4], vec![7, 2], vec![1, 5]]);
    assert_eq!(m.matrix_mul(&square).unwrap(), m);
}

use aoclib_rs::matrix::{Matrix, RowVec};
use num_bigint::BigInt;
use num_rational::BigRational;

fn br(n: i64, d: i64) -> BigRational {
    BigRational::new(BigInt::from(n), BigInt::from(d))
}

fn bi(n: i64) -> BigRational {
    BigRational::from_integer(BigInt::from(n))
}

#[test]
fn test_matrix_leader_sort_good() {
    let mut m = Matrix::from_int_vecs(vec![
        vec![0, 0, 1, 10, 0],
        vec![5, 0, 0, 0, 0],
        vec![0, 0, 0, 0, 0],
        vec![0, -1, 0, 0, 0],
        vec![0, 1, 0, 0, 0],
    ]);
    m.leader_sort();
    assert_eq!(
        m,
        Matrix::from_int_vecs(vec![
            vec![5, 0, 0, 0, 0],
            vec![0, -1, 0, 0, 0],
            vec![0, 1, 0, 0, 0],
            vec![0, 0, 1, 10, 0],
            vec![0, 0, 0, 0, 0],
        ]),
    );
}

#[test]
fn test_matrix_leader_sort_empty() {
    let mut m = Matrix::empty();
    m.leader_sort();
    assert_eq!(m, Matrix::empty());
}

#[test]
fn test_matrix_eliminate_good() {
    let mut m = Matrix::from_int_vecs(vec![
        vec![1, 2, 3, 4, 5],
        vec![6, 7, 8, 9, 10],
        vec![11, 12, 13, 14, 15],
        vec![16, 17, 18, 19, 20],
        vec![21, 22, 23, 24, 25],
    ]);

    m.eliminate(2, 4, 0);
    assert_eq!(
        m,
        Matrix::from_row_vecs(vec![
            RowVec::from_int_vec(vec![1, 2, 3, 4, 5]),
            RowVec::from_int_vec(vec![6, 7, 8, 9, 10]),
            RowVec::from_int_vec(vec![11, 12, 13, 14, 15]),
            RowVec::from_int_vec(vec![16, 17, 18, 19, 20]),
            RowVec::new(vec![bi(0), br(-10, 11), br(-20, 11), br(-30, 11), br(-40, 11)]),
        ])
    );

    m.eliminate(4, 0, 1);
    assert_eq!(
        m,
        Matrix::from_row_vecs(vec![
            RowVec::from_int_vec(vec![1, 0, -1, -2, -3]),
            RowVec::from_int_vec(vec![6, 7, 8, 9, 10]),
            RowVec::from_int_vec(vec![11, 12, 13, 14, 15]),
            RowVec::from_int_vec(vec![16, 17, 18, 19, 20]),
            RowVec::new(vec![bi(0), br(-10, 11), br(-20, 11), br(-30, 11), br(-40, 11)]),
        ])
    );

    m.eliminate(2, 3, 2);
    assert_eq!(
        m,
        Matrix::from_row_vecs(vec![
            RowVec::from_int_vec(vec![1, 0, -1, -2, -3]),
            RowVec::from_int_vec(vec![6, 7, 8, 9, 10]),
            RowVec::from_int_vec(vec![11, 12, 13, 14, 15]),
            RowVec::new(vec![br(10, 13), br(5, 13), bi(0), br(-5, 13), br(-10, 13)]),
            RowVec::new(vec![bi(0), br(-10, 11), br(-20, 11), br(-30, 11), br(-40, 11)]),
        ])
    );
}

#[test]
fn test_matrix_eliminate_other_already_eliminated() {
    let mut m = Matrix::from_int_vecs(vec![vec![0, 1, 2], vec![3, 0, 5]]);
    let m2 = m.clone();
    m.eliminate(0, 1, 1);
    assert_eq!(m, m2);
}

#[test]
fn test_matrix_eliminate_self() {
    let mut m = Matrix::from_int_vecs(vec![vec![0, 1, 2]]);
    m.eliminate(0, 0, 1);
    assert_eq!(m, Matrix::zeros(1, 3));
}

#[test]
#[should_panic]
fn test_matrix_eliminate_leader_is_zero() {
    let mut m = Matrix::from_int_vecs(vec![vec![0, 1, 2], vec![3, 4, 5]]);
    m.eliminate(0, 1, 0);
}

#[test]
fn test_matrix_normalize() {
    let mut m = Matrix::from_int_vecs(vec![
        vec![7, 5, 9],
        vec![0, 0, 7, 5, 9],
        vec![1, 2, 3],
        vec![0, 0, 0],
    ]);
    m.normalize();
    assert_eq!(
        m,
        Matrix::from_row_vecs(vec![
            RowVec::new(vec![bi(1), br(5, 7), br(9, 7)]),
            RowVec::new(vec![bi(0), bi(0), bi(1), br(5, 7), br(9, 7)]),
            RowVec::from_int_vec(vec![1, 2, 3]),
            RowVec::from_int_vec(vec![0, 0, 0]),
        ])
    );
}

#[test]
fn test_matrix_eliminate_below_leader_good() {
    let mut m = Matrix::from_int_vecs(vec![vec![1, 2, 3], vec![4, 5, 6], vec![7, 8, 9]]);
    m.eliminate_below_leader(1);
    assert_eq!(
        m,
        Matrix::from_row_vecs(vec![
            RowVec::from_int_vec(vec![1, 2, 3]),
            RowVec::from_int_vec(vec![4, 5, 6]),
            RowVec::new(vec![bi(0), br(-3, 4), br(-3, 2)]),
        ])
    );
}

#[test]
fn test_matrix_eliminate_below_leader_first() {
    let mut m = Matrix::from_int_vecs(vec![vec![1, 2, 3], vec![4, 5, 6], vec![7, 8, 9]]);
    m.eliminate_below_leader(0);
    assert_eq!(
        m,
        Matrix::from_int_vecs(vec![vec![1, 2, 3], vec![0, -3, -6], vec![0, -6, -12]])
    );
}

#[test]
fn test_matrix_eliminate_below_leader_last() {
    let mut m = Matrix::from_int_vecs(vec![vec![1, 2, 3], vec![4, 5, 6], vec![7, 8, 9]]);
    let m_copy = m.clone();
    m.eliminate_below_leader(2);
    assert_eq!(m, m_copy);
}

#[test]
fn test_matrix_eliminate_above_leader_good() {
    let mut m = Matrix::from_int_vecs(vec![vec![1, 2, 3], vec![4, 5, 6], vec![7, 8, 9]]);
    m.eliminate_above_leader(1);
    assert_eq!(
        m,
        Matrix::from_row_vecs(vec![
            RowVec::new(vec![bi(0), br(3, 4), br(3, 2)]),
            RowVec::from_int_vec(vec![4, 5, 6]),
            RowVec::from_int_vec(vec![7, 8, 9]),
        ])
    );
}

#[test]
fn test_matrix_eliminate_above_leader_first() {
    let mut m = Matrix::from_int_vecs(vec![vec![1, 2, 3], vec![4, 5, 6], vec![7, 8, 9]]);
    let m_copy = m.clone();
    m.eliminate_above_leader(0);
    assert_eq!(m, m_copy);
}

#[test]
fn test_matrix_eliminate_above_leader_last() {
    let mut m = Matrix::from_int_vecs(vec![vec![1, 2, 3], vec![4, 5, 6], vec![7, 8, 9]]);
    m.eliminate_above_leader(2);
    assert_eq!(
        m,
        Matrix::from_row_vecs(vec![
            RowVec::new(vec![bi(0), br(6, 7), br(12, 7)]),
            RowVec::new(vec![bi(0), br(3, 7), br(6, 7)]),
            RowVec::from_int_vec(vec![7, 8, 9]),
        ])
    );
}

#[test]
fn test_matrix_ref_good() {
    let mut m = Matrix::from_int_vecs(vec![vec![1, 2, 3], vec![4, 5, 6], vec![7, 8, 9]]);
    m.echelon();
    assert_eq!(
        m,
        Matrix::from_int_vecs(vec![vec![1, 2, 3], vec![0, -3, -6], vec![0, 0, 0]])
    );
}

#[test]
fn test_matrix_ref_empty() {
    let mut m = Matrix::empty();
    m.echelon();
    assert_eq!(m, Matrix::empty());
}

#[test]
fn test_matrix_rref_good() {
    let mut m = Matrix::from_int_vecs(vec![vec![1, 2, 3], vec![4, 5, 6], vec![7, 8, 9]]);
    m.rref();
    assert_eq!(
        m,
        Matrix::from_int_vecs(vec![vec![1, 0, -1], vec![0, 1, 2], vec![0, 0, 0]])
    );
}

#[test]
fn test_matrix_rref_empty() {
    let mut m = Matrix::empty();
    m.rref();
    assert_eq!(m, Matrix::empty());
}

#[test]
fn test_matrix_rref_idempotent() {
    let mut m = Matrix::from_int_vecs(vec![vec![1, 2, 3], vec![4, 5, 6], vec![7, 8, 9]]);
    m.rref();
    let once = m.clone();
    m.rref();
    assert_eq!(m, once);
}

#[test]
fn test_matrix_ref_echelon_ordering() {
    let mut m = Matrix::from_int_vecs(vec![
        vec![0, 0, 4, 1],
        vec![0, 0, 0, 0],
        vec![2, 1, 0, 3],
        vec![2, 1, 7, 0],
    ]);
    m.echelon();
    let mut leaders: Vec<Option<usize>> = Vec::new();
    for i in 0..m.height() {
        leaders.push(m.row(i).leader_col());
    }
    // leader columns strictly increase, all-zero rows at the bottom
    for w in leaders.windows(2) {
        match (w[0], w[1]) {
            (Some(a), Some(b)) => assert!(a < b),
            (Some(_), None) => {}
            (None, None) => {}
            (None, Some(_)) => panic!("zero row above a nonzero row"),
        }
    }
}

#[test]
fn test_matrix_rref_normalized_leaders() {
    let mut m = Matrix::from_int_vecs(vec![vec![0, 3, 1], vec![2, 8, 0], vec![4, 16, 1]]);
    m.rref();
    for i in 0..m.height() {
        if let Some(c) = m.row(i).leader_col() {
            assert_eq!(*m.get(i, c), bi(1));
        }
    }
}

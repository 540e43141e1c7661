use aoclib_rs::matrix::RowVec;
use num_bigint::BigInt;
use num_rational::BigRational;

fn br(n: i64, d: i64) -> BigRational {
    BigRational::new(BigInt::from(n), BigInt::from(d))
}

fn bi(n: i64) -> BigRational {
    BigRational::from_integer(BigInt::from(n))
}

#[test]
fn test_row_vec_add_assign_good() {
    let mut rv1 = RowVec::from_int_vec(vec![1, 2, 3]);
    let rv2 = RowVec::from_int_vec(vec![4, 7, 9]);
    let r = rv1.add_assign(&rv2);
    assert!(r.is_ok());
    assert_eq!(rv1, RowVec::from_int_vec(vec![5, 9, 12]));
}

#[test]
fn test_row_vec_add_assign_bad() {
    let mut rv1 = RowVec::from_int_vec(vec![1, 2, 3]);
    let rv2 = RowVec::from_int_vec(vec![4, 7, 9, 10]);
    let r = rv1.add_assign(&rv2);
    assert!(r.is_err());
    assert_eq!(rv1, RowVec::from_int_vec(vec![1, 2, 3]));
}

#[test]
fn test_row_vec_add_assign_empty() {
    let mut rv1 = RowVec::empty();
    let rv2 = RowVec::empty();
    let r = rv1.add_assign(&rv2);
    assert!(r.is_ok());
    assert_eq!(rv1, RowVec::empty());
}

#[test]
fn test_row_vec_add_good() {
    let rv1 = RowVec::from_int_vec(vec![1, 2, 3]);
    let rv2 = RowVec::from_int_vec(vec![4, 7, 9]);
    let r = rv1.add(&rv2);
    assert!(r.is_ok());
    assert_eq!(r.unwrap(), RowVec::from_int_vec(vec![5, 9, 12]));
}

#[test]
fn test_row_vec_add_bad() {
    let rv1 = RowVec::from_int_vec(vec![1, 2, 3]);
    let rv2 = RowVec::from_int_vec(vec![4, 7, 9, 10]);
    let r = rv1.add(&rv2);
    assert!(r.is_err());
}

#[test]
fn test_row_vec_add_empty() {
    let rv1 = RowVec::empty();
    let rv2 = RowVec::empty();
    let r = rv1.add(&rv2);
    assert!(r.is_ok());
    assert_eq!(r.unwrap(), RowVec::new(vec![]));
}

#[test]
fn test_row_vec_normalize_good() {
    let mut rv = RowVec::from_int_vec(vec![7, 5, 9]);
    rv.normalize();
    assert_eq!(rv, RowVec::new(vec![bi(1), br(5, 7), br(9, 7)]));
}

#[test]
fn test_row_vec_normalize_leading_zeros() {
    let mut rv = RowVec::from_int_vec(vec![0, 0, 7, 5, 9]);
    rv.normalize();
    assert_eq!(rv, RowVec::new(vec![bi(0), bi(0), bi(1), br(5, 7), br(9, 7)]));
}

#[test]
fn test_row_vec_normalize_leader_is_one() {
    let mut rv = RowVec::from_int_vec(vec![1, 2, 3]);
    rv.normalize();
    assert_eq!(rv, RowVec::from_int_vec(vec![1, 2, 3]));
}

#[test]
fn test_row_vec_normalize_all_zeros() {
    let mut rv = RowVec::from_int_vec(vec![0, 0, 0]);
    rv.normalize();
    assert_eq!(rv, RowVec::from_int_vec(vec![0, 0, 0]));
}

#[test]
fn test_row_vec_mul_assign_good() {
    let mut rv = RowVec::from_int_vec(vec![1, 2, 3]);
    rv.scalar_mul_assign(&bi(4));
    assert_eq!(rv, RowVec::from_int_vec(vec![4, 8, 12]));
}

#[test]
fn test_row_vec_mul_assign_empty() {
    let mut rv = RowVec::empty();
    rv.scalar_mul_assign(&bi(4));
    assert_eq!(rv, RowVec::empty());
}

#[test]
fn test_row_vec_mul_good() {
    let rv = RowVec::from_int_vec(vec![1, 2, 3]);
    assert_eq!(rv.scalar_mul(&bi(4)), RowVec::from_int_vec(vec![4, 8, 12]));
}

#[test]
fn test_row_vec_mul_empty() {
    let rv = RowVec::empty();
    assert_eq!(rv.scalar_mul(&bi(4)), RowVec::from_int_vec(vec![]));
}

#[test]
fn test_row_vec_is_zeros_false() {
    let rv = RowVec::from_int_vec(vec![0, 2, 0, 3, 0]);
    assert!(!rv.is_zeros());
}

#[test]
fn test_row_vec_is_zeros_true() {
    let rv = RowVec::from_int_vec(vec![0, 0, 0, 0, 0]);
    assert!(rv.is_zeros());
}

#[test]
fn test_row_vec_is_zeros_empty() {
    let rv = RowVec::empty();
    assert!(rv.is_zeros());
}

#[test]
fn test_row_vec_leader_col_good() {
    let rv = RowVec::from_int_vec(vec![0, 0, 1, 2, 3]);
    assert_eq!(rv.leader_col(), Some(2));
}

#[test]
fn test_row_vec_leader_col_first() {
    let rv = RowVec::from_int_vec(vec![4, 0, 1, 2, 3]);
    assert_eq!(rv.leader_col(), Some(0));
}

#[test]
fn test_row_vec_leader_col_last() {
    let rv = RowVec::from_int_vec(vec![0, 0, 0, 0, 3]);
    assert_eq!(rv.leader_col(), Some(4));
}

#[test]
fn test_row_vec_leader_col_zeros() {
    let rv = RowVec::from_int_vec(vec![0, 0, 0, 0, 0]);
    assert_eq!(rv.leader_col(), None);
}

#[test]
fn test_row_vec_leader_col_empty() {
    let rv = RowVec::empty();
    assert_eq!(rv.leader_col(), None);
}

#[test]
fn test_row_vec_normalize_fractional_leader() {
    let mut rv = RowVec::new(vec![br(3, 4), br(1, 2)]);
    rv.normalize();
    assert_eq!(rv, RowVec::new(vec![bi(1), br(2, 3)]));
}

#[test]
fn test_row_vec_zeros_matches_ints() {
    assert_eq!(RowVec::zeros(4), RowVec::from_int_vec(vec![0, 0, 0, 0]));
}

#[test]
fn test_row_vec_entry_len() {
    let rv = RowVec::from_int_vec(vec![8, 9]);
    assert_eq!(rv.len(), 2);
    assert_eq!(*rv.entry(1), bi(9));
}

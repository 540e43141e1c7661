use aoclib_rs::binary_search::{BinarySearchable, BinarySearchableVec};
use aoclib_rs::dir::{Dir4, Dir8, Direction};
use aoclib_rs::iter::{fwd_rev_incl_range, pairwise_iter_copy, pairwise_iter_i, selector_iter};
use aoclib_rs::option_min_max::OptionMinMax;
use aoclib_rs::point::{Point2d, Point3d, PointManhattan, PointNd, Slope};
use aoclib_rs::{fold_while, gcd, inc_selector, pad_vec, position_2d, u8_to_string, usize_plus_i};

#[test]
fn test_normal() {
    let v: Vec<i64> = vec![1, 2, 3, 4, 5];
    let l = v.len();
    let mut bs = BinarySearchableVec::new(v, 3);
    assert_eq!(bs.binary_search(0, l), Some((2, 3)));
}

#[test]
fn test_upper() {
    let v: Vec<i64> = vec![1, 2, 3, 4, 5];
    let l = v.len();
    let mut bs = BinarySearchableVec::new(v, 5);
    assert_eq!(bs.binary_search(0, l), Some((4, 5)));
}

#[test]
fn test_lower() {
    let v: Vec<i64> = vec![1, 2, 3, 4, 5];
    let l = v.len();
    let mut bs = BinarySearchableVec::new(v, 1);
    assert_eq!(bs.binary_search(0, l), Some((0, 1)));
}

#[test]
fn test_even_mid_upper() {
    let v: Vec<i64> = vec![1, 2, 3, 4];
    let l = v.len();
    let mut bs = BinarySearchableVec::new(v, 3);
    assert_eq!(bs.binary_search(0, l), Some((2, 3)));
}

#[test]
fn test_even_mid_lower() {
    let v: Vec<i64> = vec![1, 2, 3, 4];
    let l = v.len();
    let mut bs = BinarySearchableVec::new(v, 2);
    assert_eq!(bs.binary_search(0, l), Some((1, 2)));
}

#[test]
fn test_point2d_get_slope_good() {
    let slope = Point2d::new(1, 1).get_slope(&Point2d::new(1, 2)).unwrap();
    assert_eq!(slope.horizontal(), 0);
    assert_eq!(slope.vertical(), 1);
}

#[test]
fn test_point2d_get_slope_same_point() {
    assert!(Point2d::new(1, 1).get_slope(&Point2d::new(1, 1)).is_err());
}

#[test]
fn test_slope_new_zero() {
    assert!(Slope::new(0, 0).is_err());
}

#[test]
fn test_slope_from_points_2d_same_point() {
    assert!(Slope::from_points_2d(&Point2d::new(1, 1), &Point2d::new(1, 1)).is_err());
}

#[test]
fn test_slope_new_reduces() {
    let s = Slope::new(-8, 12).unwrap();
    assert_eq!(s.horizontal(), -2);
    assert_eq!(s.vertical(), 3);
}

#[test]
fn test_point_manhattan() {
    assert_eq!(Point2d::new(1, 1).manhattan(&Point2d::new(4, 5)), 7);
    assert_eq!(Point3d::new(2, 4, 3).manhattan(&Point3d::new(6, 9, 23)), 29);
    assert_eq!(
        PointNd::new([6, 8, 2, 9]).manhattan(&PointNd::new([8, 12, 5, 23])),
        23
    );
}

#[test]
fn test_point_accessors() {
    let p = Point3d::new(2, 4, 3);
    assert_eq!(p.x(), 2);
    assert_eq!(p.y(), 4);
    assert_eq!(p.z(), 3);
    let q = PointNd::new([7, 8]);
    assert_eq!(q.n(1), 8);
}

#[test]
fn test_gcd_values() {
    assert_eq!(gcd(8, 12), 4);
    assert_eq!(gcd(12, 8), 4);
    assert_eq!(gcd(7, 0), 7);
    assert_eq!(gcd(0, 0), 0);
}

#[test]
fn test_usize_plus_i_values() {
    assert_eq!(usize_plus_i(5, 23), 28);
    assert_eq!(usize_plus_i(5, -2), 3);
}

#[test]
fn test_u8_to_string_value() {
    assert_eq!(u8_to_string(b'x'), "x".to_string());
}

#[test]
fn test_position_2d_values() {
    let v = vec![vec![1, 2, 3], vec![4, 5, 6]];
    assert_eq!(position_2d(&v, |&i| i == 3), Some((2, 0)));
    assert_eq!(position_2d(&v, |&i| i == 9), None);
}

#[test]
fn test_inc_selector_values() {
    let mut v = vec![true, false, false, true, true];
    assert_eq!(inc_selector(&mut v), false);
    assert_eq!(v, vec![true, false, true, false, false]);

    let mut v = vec![true, true, true, true, true];
    assert_eq!(inc_selector(&mut v), true);
    assert_eq!(v, vec![true, true, true, true, true]);
}

#[test]
fn test_fold_while_values() {
    let v: Vec<i64> = vec![1, 2, 3, 4, 5];
    assert_eq!(fold_while(&v, 0, |acc, &item| (acc + item, item != 3)), 6);
}

#[test]
fn test_pad_vec_values() {
    let v = vec![vec![1, 2], vec![3, 4]];
    assert_eq!(
        pad_vec(&v, 1, 0),
        vec![
            vec![0, 0, 0, 0],
            vec![0, 1, 2, 0],
            vec![0, 3, 4, 0],
            vec![0, 0, 0, 0],
        ]
    );
}

#[test]
fn test_fwd_rev_incl_range_values() {
    assert_eq!(fwd_rev_incl_range(1, 3), vec![1, 2, 3]);
    assert_eq!(fwd_rev_incl_range(3, 1), vec![3, 2, 1]);
}

#[test]
fn test_pairwise_iter_i_values() {
    let input = [1, 2, 3];
    assert_eq!(pairwise_iter_i(&input), vec![(0, 1), (0, 2), (1, 2)]);
}

#[test]
fn test_pairwise_iter_copy_values() {
    let input = [1, 2, 3];
    assert_eq!(pairwise_iter_copy(&input), vec![(1, 2), (1, 3), (2, 3)]);
}

#[test]
fn test_selector_iter_values() {
    assert_eq!(
        selector_iter(2),
        vec![
            vec![false, false],
            vec![false, true],
            vec![true, false],
            vec![true, true],
        ]
    );
}

#[test]
fn test_option_min_max_values() {
    let none: OptionMinMax<i64> = OptionMinMax(None);
    assert_eq!(none.min(4).0, Some(4));
    assert_eq!(none.max(4).0, Some(4));
    assert_eq!(OptionMinMax(Some(2)).min(4).0, Some(2));
    assert_eq!(OptionMinMax(Some(2)).max(4).0, Some(4));
}

#[test]
fn test_permutation_iter_copy_values() {
    let perms = aoclib_rs::iter::permutation_iter_copy(vec![1, 2, 3]);
    assert_eq!(perms.len(), 6);
    assert_eq!(perms[0], vec![1, 2, 3]);
    for p in &perms {
        let mut sorted = p.clone();
        sorted.sort();
        assert_eq!(sorted, vec![1, 2, 3]);
    }
    for a in 0..perms.len() {
        for b in (a + 1)..perms.len() {
            assert_ne!(perms[a], perms[b]);
        }
    }
}

#[test]
fn test_dir4_values() {
    assert_eq!(Dir4::Up.delta(), (0, -1));
    assert_eq!(Dir4::Up.rotate_right(), Dir4::Right);
    assert_eq!(Dir4::Up.rotate_left(), Dir4::Left);
    assert_eq!(Dir4::Up.opposite(), Dir4::Down);
    assert_eq!(Dir4::iter(), vec![Dir4::Up, Dir4::Right, Dir4::Down, Dir4::Left]);
    assert_eq!(Dir4::Down.apply_delta_to_usizes((4, 4)), (4, 5));
}

#[test]
fn test_dir8_values() {
    assert_eq!(Dir8::UpRight.delta(), (1, -1));
    assert_eq!(Dir8::Dir4(Dir4::Up).rotate_right(), Dir8::UpRight);
    assert_eq!(Dir8::UpRight.opposite(), Dir8::DownLeft);
    assert_eq!(Dir8::UpLeft.rotate_right_90(), Dir8::UpRight);
    let neighbours = Dir8::iter_valid_usizes_deltas((0, 0), (3, 3));
    assert_eq!(neighbours, vec![(1, 0), (1, 1), (0, 1)]);
}

#[test]
fn test_trie_new_root() {
    let t = aoclib_rs::trie::Trie::new();
    assert!(t.is_terminal());
    assert_eq!(t.prefix(), "");
    assert!(t.find("").unwrap().is_terminal());
}

#[test]
fn test_trie_insert_find() {
    let mut t = aoclib_rs::trie::Trie::new();
    t.insert("cat");
    t.insert("car");
    t.insert("ca");
    let n = t.find("ca").unwrap();
    assert!(n.is_terminal());
    assert_eq!(n.prefix(), "ca");
    let c = t.find("c").unwrap();
    assert!(!c.is_terminal());
    assert_eq!(c.prefix(), "c");
    assert!(t.find("dog").is_none());
    assert!(t.find("cat").unwrap().is_terminal());
    assert!(t.find("car").unwrap().is_terminal());
    assert!(t.find("cab").is_none());
}

#[test]
fn test_pairwise_iter_values() {
    let input = [1, 2, 3];
    let want = [
        (&input[0], &input[1]),
        (&input[0], &input[2]),
        (&input[1], &input[2]),
    ];
    assert_eq!(aoclib_rs::iter::pairwise_iter(&input), want);
}

#[test]
fn test_selection_iter_values() {
    let input = [1, 2];
    let want = [vec![], vec![&input[1]], vec![&input[0]], vec![&input[0], &input[1]]];
    assert_eq!(aoclib_rs::iter::selection_iter(&input), want);
}

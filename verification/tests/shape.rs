use ha_ndarray::axes::{expand_dims, matmul_dims, reduce_axes, reduce_permutation};
use ha_ndarray::index::{ravel_offset, strides_for, unravel_offset};
use ha_ndarray::permutation::{is_valid_permutation, permute, reversed_axes};
use ha_ndarray::range::{check_range, div_ceil, fill_range, shape_of_range};
use ha_ndarray::shape::{
    can_broadcast, can_broadcast_to, is_valid_shape, same_shape, shape_size, valid_coord,
};
use ha_ndarray::{AxisRange, ErrorKind, Shape};

#[test]
fn shape_holds_the_numbers_it_was_made_of() {
    let shape = Shape::from_slice(&[2, 3, 4]);
    assert_eq!(shape.as_slice(), &[2, 3, 4]);
    assert_eq!(shape.len(), 3);
    assert_eq!(shape.clone().as_slice(), &[2, 3, 4]);
    // more numbers than are kept inline
    let long: Vec<usize> = (1..=20).collect();
    assert_eq!(Shape::from_slice(&long).as_slice(), &long[..]);
    assert_eq!(Shape::from_slice(&[]).len(), 0);
}

#[test]
fn shape_size_is_the_product_or_nothing() {
    assert_eq!(shape_size(&[]), Some(1));
    assert_eq!(shape_size(&[4, 3, 2]), Some(24));
    assert_eq!(shape_size(&[usize::MAX, 2]), None);
    assert_eq!(shape_size(&[usize::MAX, 2, 0]), Some(0));
    assert_eq!(shape_size(&[usize::MAX, 1]), Some(usize::MAX));
}

#[test]
fn valid_shapes_have_an_axis_and_no_zero() {
    assert!(is_valid_shape(&[1]));
    assert!(is_valid_shape(&[4, 3, 2]));
    assert!(!is_valid_shape(&[]));
    assert!(!is_valid_shape(&[4, 0, 2]));
    assert!(!is_valid_shape(&[usize::MAX, 2]));
}

#[test]
fn can_broadcast_aligns_shapes_at_the_right() {
    assert!(can_broadcast(&[2, 3], &[2, 3]));
    assert!(can_broadcast(&[2, 3], &[3]));
    assert!(can_broadcast(&[3], &[2, 3]));
    assert!(can_broadcast(&[2, 1], &[1, 3]));
    assert!(can_broadcast(&[], &[5]));
    assert!(!can_broadcast(&[2, 3], &[2]));
    assert!(!can_broadcast(&[2, 3], &[4, 3]));
}

#[test]
fn broadcast_never_shrinks_a_dim() {
    assert!(can_broadcast_to(&[300, 1, 2], &[300, 250, 2]));
    assert!(can_broadcast_to(&[2], &[1, 2]));
    assert!(can_broadcast_to(&[1], &[7, 5]));
    assert!(!can_broadcast_to(&[2, 3], &[1, 3]));
    assert!(!can_broadcast_to(&[2, 3], &[3]));
    assert!(!can_broadcast_to(&[2, 3], &[2, 4]));
}

#[test]
fn same_shape_rejects_other_shapes() {
    assert!(same_shape("add", &[2, 3], &[2, 3]).is_ok());
    let hinted = same_shape("add", &[2, 3], &[3]).unwrap_err();
    assert_eq!(hinted.kind(), ErrorKind::Bounds);
    assert!(hinted.message().contains("consider broadcasting"));
    assert!(hinted.message().contains("[2, 3]"));
    let plain = same_shape("add", &[2, 3], &[2, 4]).unwrap_err();
    assert_eq!(plain.kind(), ErrorKind::Bounds);
    assert!(!plain.message().contains("consider broadcasting"));
}

#[test]
fn valid_coord_checks_each_axis() {
    assert!(valid_coord(&[1, 2], &[2, 3]).is_ok());
    assert!(valid_coord(&[0, 0], &[2, 3]).is_ok());
    assert_eq!(valid_coord(&[2, 0], &[2, 3]).unwrap_err().kind(), ErrorKind::Bounds);
    assert_eq!(valid_coord(&[0, 3], &[2, 3]).unwrap_err().kind(), ErrorKind::Bounds);
    assert_eq!(valid_coord(&[0], &[2, 3]).unwrap_err().kind(), ErrorKind::Bounds);
    assert_eq!(valid_coord(&[0, 0, 0], &[2, 3]).unwrap_err().kind(), ErrorKind::Bounds);
}

#[test]
fn matmul_dims_gives_batch_rows_inner_and_columns() {
    assert_eq!(matmul_dims(&[2, 3], &[3, 4]), Some([1, 2, 3, 4]));
    assert_eq!(matmul_dims(&[5, 6, 2, 3], &[5, 6, 3, 4]), Some([30, 2, 3, 4]));
    assert_eq!(matmul_dims(&[2, 3], &[4, 3]), None);
    assert_eq!(matmul_dims(&[3], &[3]), None);
    assert_eq!(matmul_dims(&[2, 2, 3], &[3, 4]), None);
    assert_eq!(matmul_dims(&[2, 2, 3], &[1, 3, 4]), None);
    assert_eq!(matmul_dims(&[usize::MAX, 2, 2, 3], &[usize::MAX, 2, 3, 4]), None);
}

#[test]
fn reduce_axes_drops_or_keeps_the_reduced_axes() {
    assert_eq!(reduce_axes(&[4, 3, 2], &[1], false).unwrap().as_slice(), &[4, 2]);
    assert_eq!(reduce_axes(&[4, 3, 2], &[1], true).unwrap().as_slice(), &[4, 1, 2]);
    assert_eq!(reduce_axes(&[4, 3, 2], &[2, 0], false).unwrap().as_slice(), &[3]);
    assert_eq!(reduce_axes(&[4, 3, 2], &[0, 0, 2], true).unwrap().as_slice(), &[1, 3, 1]);
    assert_eq!(reduce_axes(&[4, 3, 2], &[0, 1, 2], false).unwrap().as_slice(), &[1]);
    assert_eq!(reduce_axes(&[4, 3, 2], &[], true).unwrap().as_slice(), &[4, 3, 2]);
    assert_eq!(reduce_axes(&[4, 3, 2], &[], false).unwrap().as_slice(), &[4, 3, 2]);
    assert_eq!(reduce_axes(&[4, 3, 2], &[3], false).unwrap_err().kind(), ErrorKind::Bounds);
}

#[test]
fn reduce_permutation_puts_the_reduced_axes_last() {
    assert_eq!(reduce_permutation(3, &[0]), vec![1, 2, 0]);
    assert_eq!(reduce_permutation(3, &[2]), vec![0, 1, 2]);
    assert_eq!(reduce_permutation(4, &[2, 0]), vec![1, 3, 0, 2]);
    assert_eq!(reduce_permutation(3, &[]), vec![0, 1, 2]);
}

#[test]
fn expand_dims_puts_in_unit_axes() {
    assert_eq!(expand_dims(&[2], &[1]), vec![2, 1]);
    assert_eq!(expand_dims(&[2, 3], &[0]), vec![1, 2, 3]);
    assert_eq!(expand_dims(&[2, 3], &[2, 0]), vec![1, 2, 3, 1]);
    assert_eq!(expand_dims(&[2, 3], &[1, 1]), vec![2, 1, 1, 3]);
    assert_eq!(expand_dims(&[2, 3], &[]), vec![2, 3]);
}

#[test]
fn div_ceil_rounds_up() {
    assert_eq!(div_ceil(0, 4), 0);
    assert_eq!(div_ceil(8, 4), 2);
    assert_eq!(div_ceil(9, 4), 3);
    assert_eq!(div_ceil(usize::MAX, 1), usize::MAX);
    assert_eq!(div_ceil(usize::MAX, 2), usize::MAX / 2 + 1);
}

#[test]
fn strides_are_row_major_with_zero_for_unit_axes() {
    assert_eq!(strides_for(&[4, 3, 2], 3).as_slice(), &[6, 2, 1]);
    assert_eq!(strides_for(&[300, 1, 2], 3).as_slice(), &[2, 0, 1]);
    assert_eq!(strides_for(&[2], 2).as_slice(), &[0, 1]);
    assert_eq!(strides_for(&[1], 1).as_slice(), &[0]);
}

#[test]
fn offsets_and_coordinates_are_inverse() {
    let shape = [4, 3, 2];
    assert_eq!(ravel_offset(&[1, 2, 1], &shape), 11);
    assert_eq!(unravel_offset(11, &shape), vec![1, 2, 1]);
    for offset in 0..24 {
        assert_eq!(ravel_offset(&unravel_offset(offset, &shape), &shape), offset);
    }
}

#[test]
fn permutations_name_each_axis_once() {
    assert!(is_valid_permutation(&[2, 0, 1], 3));
    assert!(is_valid_permutation(&[], 0));
    assert!(!is_valid_permutation(&[0, 0, 1], 3));
    assert!(!is_valid_permutation(&[0, 1], 3));
    assert!(!is_valid_permutation(&[0, 1, 3], 3));
    assert_eq!(permute(&[2, 3, 4], &[2, 0, 1]), vec![4, 2, 3]);
    assert_eq!(reversed_axes(3), vec![2, 1, 0]);
}

#[test]
fn ranges_are_checked_filled_and_sized() {
    let shape = [4, 3, 2];
    assert!(check_range(&shape, &vec![AxisRange::At(3), AxisRange::In(1, 3, 1)]).is_ok());
    assert!(check_range(&shape, &vec![AxisRange::Of(vec![0, 3, 3])]).is_ok());
    let invalid = [
        vec![AxisRange::At(4)],
        vec![AxisRange::In(1, 5, 1)],
        vec![AxisRange::In(2, 2, 1)],
        vec![AxisRange::In(0, 4, 0)],
        vec![AxisRange::Of(vec![])],
        vec![AxisRange::Of(vec![0, 4])],
        vec![AxisRange::At(0), AxisRange::At(0), AxisRange::At(0), AxisRange::At(0)],
    ];
    for range in invalid {
        assert_eq!(check_range(&shape, &range).unwrap_err().kind(), ErrorKind::Bounds);
    }
    let full = fill_range(&shape, vec![AxisRange::At(1)]);
    assert_eq!(full.len(), 3);
    assert!(matches!(full[1], AxisRange::In(0, 3, 1)));
    assert!(matches!(full[2], AxisRange::In(0, 2, 1)));
    assert_eq!(shape_of_range(&full), vec![3, 2]);
    // a span of 7 indices, 3 apart, has 3 steps
    assert_eq!(AxisRange::In(1, 8, 3).size(), Some(3));
    assert_eq!(AxisRange::In(0, 9, 3).size(), Some(3));
    assert_eq!(AxisRange::Of(vec![5, 5, 1, 0]).size(), Some(4));
    assert_eq!(AxisRange::At(2).size(), None);
    assert!(AxisRange::At(2).is_index());
    assert!(!AxisRange::In(0, 1, 1).is_index());
}

use ndkernels::collapse_contiguous::collapse_to_uniform_stride;
use ndkernels::flat_index_generator::FlatIndexGenerator;
use ndkernels::layout::{contiguous_strides, element_count, same_shape, view_fits};

fn walk(shape: &[usize], stride: &[usize]) -> Vec<usize> {
    let mut generator = FlatIndexGenerator::from(shape, stride);
    let mut offsets = Vec::new();
    while let Some(offset) = generator.next() {
        offsets.push(offset);
    }
    offsets
}

#[test]
fn element_count_is_the_product_of_the_extents() {
    assert_eq!(element_count(&[2, 3, 4]), Some(24));
    assert_eq!(element_count(&[7]), Some(7));
}

#[test]
fn element_count_of_a_scalar_is_one() {
    assert_eq!(element_count(&[]), Some(1));
}

#[test]
fn element_count_with_an_empty_axis_is_zero() {
    assert_eq!(element_count(&[5, 0, 3]), Some(0));
    assert_eq!(element_count(&[usize::MAX, usize::MAX, 0]), Some(0));
}

#[test]
fn element_count_that_does_not_fit_is_none() {
    assert_eq!(element_count(&[usize::MAX, 2]), None);
    assert_eq!(element_count(&[usize::MAX, 1]), Some(usize::MAX));
}

#[test]
fn generator_walks_a_contiguous_matrix_in_row_major_order() {
    assert_eq!(walk(&[2, 3], &[3, 1]), vec![0, 1, 2, 3, 4, 5]);
}

#[test]
fn generator_walks_a_transposed_matrix() {
    assert_eq!(walk(&[3, 2], &[1, 3]), vec![0, 3, 1, 4, 2, 5]);
}

#[test]
fn generator_repeats_offsets_along_a_broadcast_axis() {
    assert_eq!(walk(&[2, 3], &[0, 1]), vec![0, 1, 2, 0, 1, 2]);
    assert_eq!(walk(&[2, 3], &[1, 0]), vec![0, 0, 0, 1, 1, 1]);
}

#[test]
fn generator_walks_three_axes_with_gaps() {
    assert_eq!(
        walk(&[2, 2, 2], &[100, 10, 1]),
        vec![0, 1, 10, 11, 100, 101, 110, 111]
    );
}

#[test]
fn generator_of_a_scalar_yields_offset_zero_once() {
    assert_eq!(walk(&[], &[]), vec![0]);
}

#[test]
fn generator_of_an_empty_view_yields_nothing() {
    assert_eq!(walk(&[3, 0], &[1, 1]), Vec::<usize>::new());
}

#[test]
fn generator_is_exhausted_after_the_last_element() {
    let mut generator = FlatIndexGenerator::from(&[2], &[5]);
    assert_eq!(generator.remaining(), 2);
    assert_eq!(generator.next(), Some(0));
    assert_eq!(generator.next(), Some(5));
    assert_eq!(generator.remaining(), 0);
    assert_eq!(generator.next(), None);
    assert_eq!(generator.next(), None);
}

#[test]
fn generator_yields_as_many_offsets_as_the_shape_has_elements() {
    let shape = [3, 4, 2];
    assert_eq!(walk(&shape, &[8, 2, 1]).len(), element_count(&shape).unwrap());
}

#[test]
fn collapse_merges_a_contiguous_matrix_into_one_axis() {
    let (shape, stride) = collapse_to_uniform_stride(&[2, 3], &[3, 1]);
    assert_eq!(shape, vec![6]);
    assert_eq!(stride, vec![1]);
}

#[test]
fn collapse_merges_three_contiguous_axes() {
    let (shape, stride) = collapse_to_uniform_stride(&[2, 3, 4], &[12, 4, 1]);
    assert_eq!(shape, vec![24]);
    assert_eq!(stride, vec![1]);
}

#[test]
fn collapse_keeps_axes_that_do_not_compose() {
    let (shape, stride) = collapse_to_uniform_stride(&[3, 2], &[1, 3]);
    assert_eq!(shape, vec![3, 2]);
    assert_eq!(stride, vec![1, 3]);
}

#[test]
fn collapse_merges_only_the_contiguous_run() {
    let (shape, stride) = collapse_to_uniform_stride(&[2, 3, 4], &[100, 4, 1]);
    assert_eq!(shape, vec![2, 12]);
    assert_eq!(stride, vec![100, 1]);
}

#[test]
fn collapse_drops_axes_of_extent_one() {
    let (shape, stride) = collapse_to_uniform_stride(&[1, 5, 1], &[77, 2, 99]);
    assert_eq!(shape, vec![5]);
    assert_eq!(stride, vec![2]);
}

#[test]
fn collapse_merges_across_a_dropped_unit_axis() {
    let (shape, stride) = collapse_to_uniform_stride(&[2, 1, 3], &[3, 50, 1]);
    assert_eq!(shape, vec![6]);
    assert_eq!(stride, vec![1]);
}

#[test]
fn collapse_of_a_scalar_has_one_axis() {
    let (shape, stride) = collapse_to_uniform_stride(&[], &[]);
    assert_eq!(shape, vec![1]);
    assert_eq!(stride, vec![0]);
}

#[test]
fn collapse_of_all_unit_axes_has_one_axis() {
    let (shape, stride) = collapse_to_uniform_stride(&[1, 1, 1], &[4, 2, 1]);
    assert_eq!(shape, vec![1]);
    assert_eq!(stride, vec![0]);
}

#[test]
fn collapse_merges_adjacent_broadcast_axes() {
    let (shape, stride) = collapse_to_uniform_stride(&[2, 3], &[0, 0]);
    assert_eq!(shape, vec![6]);
    assert_eq!(stride, vec![0]);
}

#[test]
fn collapse_keeps_a_broadcast_axis_next_to_a_real_one() {
    let (shape, stride) = collapse_to_uniform_stride(&[2, 3], &[0, 1]);
    assert_eq!(shape, vec![2, 3]);
    assert_eq!(stride, vec![0, 1]);
    let (shape, stride) = collapse_to_uniform_stride(&[2, 3], &[1, 0]);
    assert_eq!(shape, vec![2, 3]);
    assert_eq!(stride, vec![1, 0]);
}

#[test]
fn collapse_of_an_empty_view_is_one_empty_axis() {
    let (shape, stride) = collapse_to_uniform_stride(&[4, 0, 2], &[2, 2, 1]);
    assert_eq!(shape, vec![0]);
    assert_eq!(stride, vec![0]);
}

#[test]
fn collapse_does_not_merge_where_the_extent_would_overflow() {
    let half = usize::MAX / 2 + 1;
    let (shape, stride) = collapse_to_uniform_stride(&[half, half], &[0, 0]);
    assert_eq!(shape, vec![half, half]);
    assert_eq!(stride, vec![0, 0]);
}

#[test]
fn collapse_preserves_the_offsets_visited() {
    let cases: Vec<(Vec<usize>, Vec<usize>)> = vec![
        (vec![2, 3], vec![3, 1]),
        (vec![2, 3], vec![1, 2]),
        (vec![2, 1, 3], vec![6, 9, 2]),
        (vec![2, 2, 2], vec![4, 2, 1]),
        (vec![2, 2, 2], vec![0, 2, 1]),
        (vec![2, 2, 2], vec![4, 0, 1]),
        (vec![3, 1, 1, 2], vec![2, 0, 0, 1]),
        (vec![4], vec![3]),
        (vec![], vec![]),
        (vec![2, 0], vec![1, 1]),
    ];
    for (shape, stride) in cases {
        let (new_shape, new_stride) = collapse_to_uniform_stride(&shape, &stride);
        assert_eq!(walk(&new_shape, &new_stride), walk(&shape, &stride));
        assert!(!new_shape.is_empty());
        assert_eq!(new_shape.len(), new_stride.len());
    }
}

#[test]
fn contiguous_strides_are_the_products_of_the_later_extents() {
    assert_eq!(contiguous_strides(&[2, 3, 4]), vec![12, 4, 1]);
    assert_eq!(contiguous_strides(&[5]), vec![1]);
    assert_eq!(contiguous_strides(&[]), Vec::<usize>::new());
    assert_eq!(contiguous_strides(&[3, 1, 2]), vec![2, 2, 1]);
}

#[test]
fn contiguous_strides_visit_the_buffer_in_order() {
    let shape = [3, 2, 4];
    let stride = contiguous_strides(&shape);
    assert_eq!(walk(&shape, &stride), (0..24).collect::<Vec<usize>>());
}

#[test]
fn contiguous_strides_of_shapes_without_countable_elements() {
    assert_eq!(contiguous_strides(&[4, 0, 2]).len(), 3);
    assert_eq!(contiguous_strides(&[usize::MAX, 2]).len(), 2);
}

#[test]
fn shapes_compare_axis_by_axis() {
    assert!(same_shape(&[2, 3], &[2, 3]));
    assert!(same_shape(&[], &[]));
    assert!(!same_shape(&[2, 3], &[3, 2]));
    assert!(!same_shape(&[2], &[2, 1]));
}

#[test]
fn views_inside_their_buffer_fit() {
    assert!(view_fits(&[2, 3], &[3, 1], 6));
    assert!(view_fits(&[3, 2], &[1, 3], 6));
    assert!(view_fits(&[2, 3], &[0, 0], 1));
    assert!(view_fits(&[4], &[2], 7));
    assert!(view_fits(&[], &[], 1));
    assert!(view_fits(&[5, 0], &[100, 100], 0));
}

#[test]
fn views_that_reach_past_the_end_do_not_fit() {
    assert!(!view_fits(&[2, 3], &[3, 1], 5));
    assert!(!view_fits(&[4], &[2], 6));
    assert!(!view_fits(&[], &[], 0));
    assert!(!view_fits(&[1, 1], &[9, 9], 0));
    assert!(!view_fits(&[2], &[usize::MAX], usize::MAX));
    assert!(!view_fits(&[3, 3], &[usize::MAX / 2, 1], usize::MAX));
    assert!(!view_fits(&[usize::MAX, 3], &[1, usize::MAX / 2], usize::MAX));
}

#[test]
fn views_need_one_stride_per_axis() {
    assert!(!view_fits(&[2, 3], &[1], 100));
    assert!(!view_fits(&[], &[1], 100));
    assert!(!view_fits(&[0], &[], 100));
}

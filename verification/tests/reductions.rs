use ndkernels::ops::{Add, Max, Min, Mul, ReduceOp};
use ndkernels::simd_reduce_ops::{
    reduce, reduce_contiguous, reduce_scalar, reduce_uniform, reduce_view, simd_combine,
    simd_from_constant,
    simd_horizontal, simd_load, simd_vec_from_stride, SimdReduceOps, LANES,
};

#[test]
fn sum_of_nothing_is_zero() {
    assert_eq!(i32::simd_sum_uniform(&[], 0, 1), 0);
    assert_eq!(i32::simd_sum_contiguous(&[], 0), 0);
    assert_eq!(u64::simd_sum_uniform(&[5, 6], 0, 3), 0);
}

#[test]
fn product_of_nothing_is_one() {
    assert_eq!(i32::simd_product_uniform(&[], 0, 1), 1);
    assert_eq!(i32::simd_product_contiguous(&[], 0), 1);
    assert_eq!(u8::simd_product_contiguous(&[9], 0), 1);
}

#[test]
fn minimum_and_maximum_of_nothing_are_the_identities() {
    assert_eq!(i32::simd_min_uniform(&[], 0, 1), i32::MAX);
    assert_eq!(i32::simd_min_contiguous(&[], 0), i32::MAX);
    assert_eq!(i32::simd_max_uniform(&[], 0, 1), i32::MIN);
    assert_eq!(i32::simd_max_contiguous(&[], 0), i32::MIN);
    assert_eq!(u16::simd_min_contiguous(&[], 0), u16::MAX);
    assert_eq!(u16::simd_max_contiguous(&[], 0), 0);
}

#[test]
fn sum_of_three_elements() {
    assert_eq!(i32::simd_sum_contiguous(&[4, -9, 20], 3), 4 - 9 + 20);
    assert_eq!(i32::simd_sum_uniform(&[4, 0, -9, 0, 20], 3, 2), 4 - 9 + 20);
}

#[test]
fn identities_of_the_reduction_operators() {
    assert_eq!(<Add as ReduceOp<i64>>::seed(), 0);
    assert_eq!(<Mul as ReduceOp<i64>>::seed(), 1);
    assert_eq!(<Min as ReduceOp<i64>>::seed(), i64::MAX);
    assert_eq!(<Max as ReduceOp<i64>>::seed(), i64::MIN);
    assert_eq!(<Min as ReduceOp<u8>>::seed(), 255);
    assert_eq!(<Max as ReduceOp<u8>>::seed(), 0);
}

#[test]
fn vector_width_is_four() {
    assert_eq!(LANES, 4);
}

fn tail_counts() -> Vec<usize> {
    vec![0, 1, LANES - 1, LANES, LANES + 1, 4 * LANES + 3, 4 * LANES, 8 * LANES + 1, 37]
}

#[test]
fn sum_matches_the_scalar_fold_for_every_tail_length() {
    let data: Vec<i64> = (0..200).map(|i| (i * i - 50 * i + 7) as i64).collect();
    for count in tail_counts() {
        let expected: i64 = data[..count].iter().sum();
        assert_eq!(i64::simd_sum_contiguous(&data, count), expected);
        assert_eq!(i64::simd_sum_uniform(&data, count, 1), expected);
        assert_eq!(reduce_scalar::<i64, Add>(&data, count, 1), expected);
        let strided: i64 = data.iter().step_by(3).take(count).sum();
        assert_eq!(i64::simd_sum_uniform(&data, count, 3), strided);
        assert_eq!(reduce_scalar::<i64, Add>(&data, count, 3), strided);
    }
}

#[test]
fn product_matches_the_scalar_fold_for_every_tail_length() {
    let data: Vec<u32> = (0..200).map(|i| (2 * i + 3) as u32).collect();
    for count in tail_counts() {
        let expected = data[..count].iter().fold(1u32, |acc, x| acc.wrapping_mul(*x));
        assert_eq!(u32::simd_product_contiguous(&data, count), expected);
        assert_eq!(u32::simd_product_uniform(&data, count, 1), expected);
        assert_eq!(reduce_scalar::<u32, Mul>(&data, count, 1), expected);
        let strided =
            data.iter().step_by(5).take(count).fold(1u32, |acc, x| acc.wrapping_mul(*x));
        assert_eq!(u32::simd_product_uniform(&data, count, 5), strided);
    }
}

#[test]
fn minimum_and_maximum_match_the_scalar_fold_for_every_tail_length() {
    let data: Vec<i16> = (0..200).map(|i| ((i * 37) % 101 - 50) as i16).collect();
    for count in tail_counts() {
        let least = data[..count].iter().copied().min().unwrap_or(i16::MAX);
        let greatest = data[..count].iter().copied().max().unwrap_or(i16::MIN);
        assert_eq!(i16::simd_min_contiguous(&data, count), least);
        assert_eq!(i16::simd_min_uniform(&data, count, 1), least);
        assert_eq!(i16::simd_max_contiguous(&data, count), greatest);
        assert_eq!(i16::simd_max_uniform(&data, count, 1), greatest);
        assert_eq!(reduce_scalar::<i16, Min>(&data, count, 1), least);
        assert_eq!(reduce_scalar::<i16, Max>(&data, count, 1), greatest);
        let strided_least = data.iter().step_by(4).take(count).copied().min().unwrap_or(i16::MAX);
        let strided_greatest =
            data.iter().step_by(4).take(count).copied().max().unwrap_or(i16::MIN);
        assert_eq!(i16::simd_min_uniform(&data, count, 4), strided_least);
        assert_eq!(i16::simd_max_uniform(&data, count, 4), strided_greatest);
    }
}

#[test]
fn sum_wraps_around() {
    assert_eq!(u8::simd_sum_contiguous(&[200, 100, 50], 3), 94);
    assert_eq!(i8::simd_sum_contiguous(&[127, 1], 2), -128);
    let data = [u64::MAX; 9];
    assert_eq!(u64::simd_sum_contiguous(&data, 9), u64::MAX - 8);
}

#[test]
fn product_wraps_around() {
    assert_eq!(u8::simd_product_contiguous(&[16, 16, 3], 3), 0);
    assert_eq!(i32::simd_product_contiguous(&[65536, 65536, 7], 3), 0);
    assert_eq!(i8::simd_product_contiguous(&[-3, 50], 2), (-150i32) as i8);
}

#[test]
fn broadcast_read_reduces_one_element_many_times() {
    assert_eq!(i32::simd_sum_uniform(&[7], 10, 0), 70);
    assert_eq!(i32::simd_product_uniform(&[2], 10, 0), 1024);
    assert_eq!(i32::simd_min_uniform(&[7], 10, 0), 7);
    assert_eq!(i32::simd_max_uniform(&[7], 10, 0), 7);
}

#[test]
fn reduce_selects_by_stride() {
    let data: Vec<i32> = (1..=40).collect();
    assert_eq!(reduce::<i32, Add>(&data, 40, 1), 820);
    assert_eq!(reduce::<i32, Add>(&data, 20, 2), 400);
    assert_eq!(reduce::<i32, Max>(&data, 14, 3), 40);
    assert_eq!(reduce::<i32, Min>(&data, 14, 3), 1);
    assert_eq!(reduce_contiguous::<i32, Add>(&data, 17), 153);
    assert_eq!(reduce_uniform::<i32, Add>(&data, 17, 1), 153);
}

#[test]
fn every_element_type_reduces() {
    assert_eq!(u8::simd_sum_contiguous(&[1, 2, 3, 4, 5], 5), 15);
    assert_eq!(u16::simd_sum_contiguous(&[1, 2, 3, 4, 5], 5), 15);
    assert_eq!(u32::simd_sum_contiguous(&[1, 2, 3, 4, 5], 5), 15);
    assert_eq!(u64::simd_sum_contiguous(&[1, 2, 3, 4, 5], 5), 15);
    assert_eq!(u128::simd_sum_contiguous(&[1, 2, 3, 4, 5], 5), 15);
    assert_eq!(usize::simd_sum_contiguous(&[1, 2, 3, 4, 5], 5), 15);
    assert_eq!(i8::simd_product_contiguous(&[1, -2, 3, -4, 5], 5), 120);
    assert_eq!(i16::simd_product_contiguous(&[1, -2, 3, -4, 5], 5), 120);
    assert_eq!(i32::simd_product_contiguous(&[1, -2, 3, -4, 5], 5), 120);
    assert_eq!(i64::simd_product_contiguous(&[1, -2, 3, -4, 5], 5), 120);
    assert_eq!(i128::simd_product_contiguous(&[1, -2, 3, -4, 5], 5), 120);
    assert_eq!(isize::simd_product_contiguous(&[1, -2, 3, -4, 5], 5), 120);
    assert_eq!(i128::simd_min_contiguous(&[1, -2, 3, -4, 5], 5), -4);
    assert_eq!(isize::simd_max_contiguous(&[1, -2, 3, -4, 5], 5), 5);
}

#[test]
fn vectors_load_combine_and_fold() {
    let data = [1i32, 2, 3, 4, 5, 6, 7, 8, 9, 10];
    assert_eq!(simd_from_constant(7u8), [7, 7, 7, 7]);
    assert_eq!(simd_load(&data, 3), [4, 5, 6, 7]);
    assert_eq!(simd_vec_from_stride(&data, 1, 2), [3, 5, 7, 9]);
    assert_eq!(simd_vec_from_stride(&data, 0, 3), [1, 4, 7, 10]);
    assert_eq!(simd_combine::<i32, Add>([1, 2, 3, 4], [10, 20, 30, 40]), [11, 22, 33, 44]);
    assert_eq!(simd_combine::<i32, Max>([1, 20, 3, 40], [10, 2, 30, 4]), [10, 20, 30, 40]);
    assert_eq!(simd_horizontal::<i32, Add>([1, 2, 3, 4]), 10);
    assert_eq!(simd_horizontal::<i32, Mul>([1, 2, 3, 4]), 24);
    assert_eq!(simd_horizontal::<i32, Min>([3, 1, 4, 2]), 1);
}

#[test]
fn whole_views_reduce_in_row_major_order() {
    let data: Vec<i32> = (1..=24).collect();
    assert_eq!(reduce_view::<i32, Add>(&data, &[2, 3, 4], &[12, 4, 1]), 300);
    assert_eq!(reduce_view::<i32, Add>(&data, &[4, 3], &[1, 4]), 78);
    assert_eq!(reduce_view::<i32, Add>(&data, &[2, 3], &[0, 1]), 12);
    assert_eq!(reduce_view::<i32, Max>(&data, &[2, 2], &[12, 5]), 18);
    assert_eq!(reduce_view::<i32, Min>(&data, &[2, 2], &[12, 5]), 1);
    assert_eq!(reduce_view::<i32, Mul>(&data, &[2, 2], &[2, 1]), 1 * 2 * 3 * 4);
    assert_eq!(reduce_view::<i32, Add>(&data, &[], &[]), 1);
    assert_eq!(reduce_view::<i32, Add>(&data, &[3, 0], &[1, 1]), 0);
    assert_eq!(reduce_view::<i32, Mul>(&data, &[0], &[1]), 1);
}

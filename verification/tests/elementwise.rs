use ndkernels::binary_ops::{
    classify_operand, elementwise_binary, elementwise_contiguous, elementwise_scalar,
    kernel_0_nonunif,
    kernel_1_nonunif, kernel_n_nonunif, kernel_nonunif_0, kernel_nonunif_1, kernel_nonunif_n,
    kernel_stride_0_1, kernel_stride_0_n, kernel_stride_1_0, kernel_stride_1_1,
    kernel_stride_1_n, kernel_stride_n_0, kernel_stride_n_1, kernel_stride_n_n,
    kernel_unspecialized, select_loop, LoopShape, OperandClass,
};
use ndkernels::broadcast::{broadcast_binary, broadcast_shapes, broadcast_strides};
use ndkernels::ops::{Add, BinaryOp, BitAnd, BitOr, Div, Max, Min, Mul, Rem, Shl, Shr, Sub};

#[test]
fn multiply_matrix_by_broadcast_column() {
    let a = [1i32, 2, 3, 4];
    let b = [10i32, 20];
    let mut out = [0i32; 4];
    elementwise_binary::<i32, Mul>(&a, &[2, 1], &b, &[1, 0], &mut out, &[2, 2]);
    assert_eq!(out, [10, 20, 60, 80]);
}

#[test]
fn broadcast_column_against_row() {
    let a = [1i64, 2, 3];
    let b = [10i64, 20, 30, 40];
    let mut out = [0i64; 12];
    elementwise_binary::<i64, Add>(&a, &[1, 0], &b, &[0, 1], &mut out, &[3, 4]);
    for i in 0..3 {
        for j in 0..4 {
            assert_eq!(out[i * 4 + j], a[i] + b[j]);
        }
    }
    let mut out = [0i64; 12];
    elementwise_binary::<i64, Rem>(&b, &[0, 1], &a, &[1, 0], &mut out, &[3, 4]);
    for i in 0..3 {
        for j in 0..4 {
            assert_eq!(out[i * 4 + j], b[j] % a[i]);
        }
    }
}

#[test]
fn both_scalars_take_the_single_element_path() {
    let mut out = [0u8; 1];
    elementwise_binary::<u8, BitOr>(&[0b1010], &[], &[0b0101], &[], &mut out, &[]);
    assert_eq!(out, [0b1111]);
}

#[test]
fn elements_past_the_result_are_left_alone() {
    let mut out = [9u32; 5];
    elementwise_binary::<u32, Add>(&[1, 2, 3], &[1], &[10, 20, 30], &[1], &mut out, &[3]);
    assert_eq!(out, [11, 22, 33, 9, 9]);
}

#[test]
fn contiguous_with_contiguous() {
    let mut out = [0u16; 4];
    elementwise_binary::<u16, Sub>(&[5, 6, 7, 8], &[2, 1], &[1, 2, 3, 4], &[2, 1], &mut out, &[2, 2]);
    assert_eq!(out, [4, 4, 4, 4]);
}

#[test]
fn contiguous_with_broadcast_scalar() {
    let mut out = [0i32; 4];
    elementwise_binary::<i32, Mul>(&[1, 2, 3, 4], &[2, 1], &[7], &[0, 0], &mut out, &[2, 2]);
    assert_eq!(out, [7, 14, 21, 28]);
    let mut out = [0i32; 4];
    elementwise_binary::<i32, Sub>(&[7], &[0, 0], &[1, 2, 3, 4], &[2, 1], &mut out, &[2, 2]);
    assert_eq!(out, [6, 5, 4, 3]);
}

#[test]
fn strided_with_broadcast_scalar() {
    let lhs = [1i32, 0, 2, 0, 3, 0];
    let mut out = [0i32; 3];
    elementwise_binary::<i32, Mul>(&lhs, &[2], &[5], &[0], &mut out, &[3]);
    assert_eq!(out, [5, 10, 15]);
    let mut out = [0i32; 3];
    elementwise_binary::<i32, Sub>(&[5], &[0], &lhs, &[2], &mut out, &[3]);
    assert_eq!(out, [4, 3, 2]);
}

#[test]
fn strided_with_contiguous_and_strided() {
    let wide = [1u32, 0, 0, 2, 0, 0, 3, 0, 0];
    let dense = [10u32, 20, 30];
    let gapped = [100u32, 0, 200, 0, 300];
    let mut out = [0u32; 3];
    elementwise_binary::<u32, Add>(&wide, &[3], &dense, &[1], &mut out, &[3]);
    assert_eq!(out, [11, 22, 33]);
    elementwise_binary::<u32, Add>(&dense, &[1], &wide, &[3], &mut out, &[3]);
    assert_eq!(out, [11, 22, 33]);
    elementwise_binary::<u32, Add>(&wide, &[3], &gapped, &[2], &mut out, &[3]);
    assert_eq!(out, [101, 202, 303]);
}

#[test]
fn transposed_with_each_kind_of_uniform_operand() {
    // the left operand is a 2x3 matrix read as its 3x2 transpose
    let matrix = [1i32, 2, 3, 4, 5, 6];
    let transposed = [1i32, 4, 2, 5, 3, 6];
    let dense = [10i32, 20, 30, 40, 50, 60];
    let gapped = [10i32, 0, 20, 0, 30, 0, 40, 0, 50, 0, 60];
    let mut out = [0i32; 6];
    elementwise_binary::<i32, Mul>(&matrix, &[1, 3], &[2], &[0, 0], &mut out, &[3, 2]);
    assert_eq!(out, [2, 8, 4, 10, 6, 12]);
    elementwise_binary::<i32, Sub>(&[2], &[0, 0], &matrix, &[1, 3], &mut out, &[3, 2]);
    assert_eq!(out, [1, -2, 0, -3, -1, -4]);
    elementwise_binary::<i32, Add>(&matrix, &[1, 3], &dense, &[2, 1], &mut out, &[3, 2]);
    assert_eq!(out, [11, 24, 32, 45, 53, 66]);
    elementwise_binary::<i32, Sub>(&dense, &[2, 1], &matrix, &[1, 3], &mut out, &[3, 2]);
    assert_eq!(out, [9, 16, 28, 35, 47, 54]);
    elementwise_binary::<i32, Add>(&matrix, &[1, 3], &gapped, &[4, 2], &mut out, &[3, 2]);
    assert_eq!(out, [11, 24, 32, 45, 53, 66]);
    elementwise_binary::<i32, Sub>(&gapped, &[4, 2], &matrix, &[1, 3], &mut out, &[3, 2]);
    assert_eq!(out, [9, 16, 28, 35, 47, 54]);
    elementwise_binary::<i32, Sub>(&matrix, &[1, 3], &matrix, &[1, 3], &mut out, &[3, 2]);
    assert_eq!(out, [0; 6]);
    elementwise_binary::<i32, Mul>(&matrix, &[1, 3], &transposed, &[2, 1], &mut out, &[3, 2]);
    assert_eq!(out, [1, 16, 4, 25, 9, 36]);
}

#[test]
fn both_operands_non_uniform() {
    let lhs = [1i32, 2, 3, 4, 5, 6];
    let rhs = [10i32, 20, 30];
    let mut out = [0i32; 6];
    // lhs transposed, rhs broadcast along the last axis
    elementwise_binary::<i32, Add>(&lhs, &[1, 3], &rhs, &[1, 0], &mut out, &[3, 2]);
    assert_eq!(out, [11, 14, 22, 25, 33, 36]);
}

#[test]
fn dispatcher_agrees_with_the_general_loop() {
    let lhs: Vec<i64> = (1..=24).collect();
    let rhs: Vec<i64> = (101..=124).collect();
    let shape = [2usize, 3, 4];
    let strides: Vec<[usize; 3]> = vec![
        [12, 4, 1],
        [0, 4, 1],
        [12, 0, 1],
        [12, 4, 0],
        [0, 0, 1],
        [0, 4, 0],
        [12, 0, 0],
        [0, 0, 0],
        [1, 2, 6],
        [4, 1, 3],
        [3, 1, 6],
    ];
    for lhs_stride in strides.iter() {
        for rhs_stride in strides.iter() {
            let mut fast = [0i64; 24];
            let mut general = [0i64; 24];
            elementwise_binary::<i64, Sub>(&lhs, lhs_stride, &rhs, rhs_stride, &mut fast, &shape);
            kernel_unspecialized::<i64, Sub>(
                &lhs,
                &shape,
                lhs_stride,
                &rhs,
                &shape,
                rhs_stride,
                &mut general,
            );
            assert_eq!(fast, general);
        }
    }
}

#[test]
fn empty_shape_axis_writes_nothing() {
    let mut out = [5u8; 2];
    elementwise_binary::<u8, Add>(&[], &[1, 1], &[], &[1, 1], &mut out, &[0, 3]);
    assert_eq!(out, [5, 5]);
}

#[test]
fn uniform_kernels_compute_the_same_as_the_general_uniform_loop() {
    let lhs = [1i32, 2, 3, 4, 5, 6, 7];
    let rhs = [10i32, 20, 30, 40, 50, 60, 70];
    let mut out = [0i32; 3];
    kernel_stride_n_n::<i32, Add>(&lhs, 3, &rhs, 2, &mut out, 3);
    assert_eq!(out, [11, 34, 57]);
    kernel_stride_0_1::<i32, Add>(&lhs, &rhs, &mut out, 3);
    assert_eq!(out, [11, 21, 31]);
    kernel_stride_1_0::<i32, Add>(&lhs, &rhs, &mut out, 3);
    assert_eq!(out, [11, 12, 13]);
    kernel_stride_n_0::<i32, Add>(&lhs, 2, &rhs, &mut out, 3);
    assert_eq!(out, [11, 13, 15]);
    kernel_stride_0_n::<i32, Add>(&lhs, &rhs, 2, &mut out, 3);
    assert_eq!(out, [11, 31, 51]);
    kernel_stride_1_1::<i32, Add>(&lhs, &rhs, &mut out, 3);
    assert_eq!(out, [11, 22, 33]);
    kernel_stride_n_1::<i32, Add>(&lhs, 2, &rhs, &mut out, 3);
    assert_eq!(out, [11, 23, 35]);
    kernel_stride_1_n::<i32, Add>(&lhs, &rhs, 2, &mut out, 3);
    assert_eq!(out, [11, 32, 53]);
}

#[test]
fn generator_kernels_walk_the_non_uniform_side() {
    let matrix = [1i32, 2, 3, 4, 5, 6];
    let other = [10i32, 20, 30, 40, 50, 60, 70, 80, 90, 100, 110];
    let shape = [3usize, 2];
    let stride = [1usize, 3];
    let mut out = [0i32; 6];
    kernel_nonunif_n::<i32, Sub>(&matrix, &shape, &stride, &other, 2, &mut out, 6);
    assert_eq!(out, [1 - 10, 4 - 30, 2 - 50, 5 - 70, 3 - 90, 6 - 110]);
    kernel_n_nonunif::<i32, Sub>(&other, 2, &matrix, &shape, &stride, &mut out, 6);
    assert_eq!(out, [10 - 1, 30 - 4, 50 - 2, 70 - 5, 90 - 3, 110 - 6]);
    kernel_nonunif_0::<i32, Sub>(&matrix, &shape, &stride, &other, &mut out, 6);
    assert_eq!(out, [-9, -6, -8, -5, -7, -4]);
    kernel_0_nonunif::<i32, Sub>(&other, &matrix, &shape, &stride, &mut out, 6);
    assert_eq!(out, [9, 6, 8, 5, 7, 4]);
    kernel_nonunif_1::<i32, Sub>(&matrix, &shape, &stride, &other, &mut out, 6);
    assert_eq!(out, [1 - 10, 4 - 20, 2 - 30, 5 - 40, 3 - 50, 6 - 60]);
    kernel_1_nonunif::<i32, Sub>(&other, &matrix, &shape, &stride, &mut out, 6);
    assert_eq!(out, [10 - 1, 20 - 4, 30 - 2, 40 - 5, 50 - 3, 60 - 6]);
}

#[test]
fn scalar_entry_point_on_each_kind_of_view() {
    let data = [1i32, 2, 3, 4, 5, 6];
    let mut out = [0i32; 6];
    elementwise_scalar::<i32, Mul>(&data, &[2, 3], &[3, 1], 10, &mut out);
    assert_eq!(out, [10, 20, 30, 40, 50, 60]);
    elementwise_scalar::<i32, Sub>(&data, &[3, 2], &[1, 3], 1, &mut out);
    assert_eq!(out, [0, 3, 1, 4, 2, 5]);
    let mut out = [0i32; 3];
    elementwise_scalar::<i32, Add>(&data, &[3], &[2], 100, &mut out);
    assert_eq!(out, [101, 103, 105]);
    let mut out = [0i32; 2];
    elementwise_scalar::<i32, Rem>(&[17], &[], &[], 5, &mut out);
    assert_eq!(out, [2, 0]);
}

#[test]
fn whole_buffers_of_equal_length() {
    let out = elementwise_contiguous::<u64, Mul>(&[1, 2, 3], &[4, 5, 6]);
    assert_eq!(out, vec![4, 10, 18]);
    assert_eq!(elementwise_contiguous::<u64, Mul>(&[], &[]), Vec::<u64>::new());
}

#[test]
fn addition_subtraction_and_multiplication_wrap() {
    assert_eq!(<Add as BinaryOp<u8>>::apply(250, 10), 4);
    assert_eq!(<Add as BinaryOp<i8>>::apply(127, 1), -128);
    assert_eq!(<Sub as BinaryOp<u8>>::apply(3, 5), 254);
    assert_eq!(<Sub as BinaryOp<i32>>::apply(i32::MIN, 1), i32::MAX);
    assert_eq!(<Mul as BinaryOp<u8>>::apply(16, 17), 16);
    assert_eq!(<Mul as BinaryOp<i16>>::apply(300, 300), (300i32 * 300) as i16);
    assert_eq!(<Mul as BinaryOp<i64>>::apply(-3, 7), -21);
    assert_eq!(<Add as BinaryOp<u128>>::apply(u128::MAX, 2), 1);
    assert_eq!(<Add as BinaryOp<usize>>::apply(usize::MAX, 1), 0);
    assert_eq!(<Add as BinaryOp<isize>>::apply(isize::MAX, 1), isize::MIN);
}

#[test]
fn division_and_remainder_round_toward_zero() {
    assert_eq!(<Div as BinaryOp<i32>>::apply(7, 2), 3);
    assert_eq!(<Div as BinaryOp<i32>>::apply(-7, 2), -3);
    assert_eq!(<Div as BinaryOp<i32>>::apply(7, -2), -3);
    assert_eq!(<Div as BinaryOp<i32>>::apply(-7, -2), 3);
    assert_eq!(<Div as BinaryOp<i8>>::apply(i8::MIN, 1), i8::MIN);
    assert_eq!(<Div as BinaryOp<i8>>::apply(i8::MAX, -1), -i8::MAX);
    assert_eq!(<Div as BinaryOp<u16>>::apply(17, 5), 3);
    assert_eq!(<Rem as BinaryOp<i32>>::apply(7, 3), 1);
    assert_eq!(<Rem as BinaryOp<i32>>::apply(-7, 3), -1);
    assert_eq!(<Rem as BinaryOp<i32>>::apply(7, -3), 1);
    assert_eq!(<Rem as BinaryOp<i32>>::apply(-7, -3), -1);
    assert_eq!(<Rem as BinaryOp<i64>>::apply(i64::MIN, 2), 0);
    assert_eq!(<Rem as BinaryOp<isize>>::apply(-9, 4), -1);
    assert_eq!(<Rem as BinaryOp<u8>>::apply(200, 7), 4);
    assert_eq!(<Rem as BinaryOp<u128>>::apply(u128::MAX, 10), 5);
}

#[test]
fn bitwise_operators_and_shifts() {
    assert_eq!(<BitAnd as BinaryOp<u8>>::apply(0b1100, 0b1010), 0b1000);
    assert_eq!(<BitAnd as BinaryOp<i32>>::apply(-1, 0x0f0f), 0x0f0f);
    assert_eq!(<BitOr as BinaryOp<u16>>::apply(0b1100, 0b1010), 0b1110);
    assert_eq!(<BitOr as BinaryOp<i8>>::apply(-128, 1), -127);
    assert_eq!(<Shl as BinaryOp<u8>>::apply(0b1000_0001, 1), 0b0000_0010);
    assert_eq!(<Shl as BinaryOp<u32>>::apply(1, 31), 0x8000_0000);
    assert_eq!(<Shl as BinaryOp<i32>>::apply(1, 31), i32::MIN);
    assert_eq!(<Shl as BinaryOp<i64>>::apply(-1, 4), -16);
    assert_eq!(<Shr as BinaryOp<u8>>::apply(0b1000_0000, 7), 1);
    assert_eq!(<Shr as BinaryOp<i32>>::apply(-16, 2), -4);
    assert_eq!(<Shr as BinaryOp<i8>>::apply(-1, 7), -1);
    assert_eq!(<Shr as BinaryOp<u64>>::apply(u64::MAX, 63), 1);
    assert_eq!(<Shl as BinaryOp<u128>>::apply(1, 127), 1u128 << 127);
    assert_eq!(<Shr as BinaryOp<usize>>::apply(8, 3), 1);
}

#[test]
fn minimum_and_maximum() {
    assert_eq!(<Min as BinaryOp<i32>>::apply(-3, 2), -3);
    assert_eq!(<Min as BinaryOp<u8>>::apply(3, 2), 2);
    assert_eq!(<Max as BinaryOp<i32>>::apply(-3, 2), 2);
    assert_eq!(<Max as BinaryOp<u64>>::apply(3, 3), 3);
}

#[test]
fn remainder_bitwise_and_shift_operators_through_the_dispatcher() {
    let lhs = [12i32, -7, 100, 5];
    let rhs = [5i32, 3, 7, 2];
    let shape = [4usize];
    let mut out = [0i32; 4];
    elementwise_binary::<i32, Rem>(&lhs, &[1], &rhs, &[1], &mut out, &shape);
    assert_eq!(out, [2, -1, 2, 1]);
    elementwise_binary::<i32, BitAnd>(&lhs, &[1], &rhs, &[1], &mut out, &shape);
    assert_eq!(out, [12 & 5, -7 & 3, 100 & 7, 5 & 2]);
    elementwise_binary::<i32, BitOr>(&lhs, &[1], &rhs, &[1], &mut out, &shape);
    assert_eq!(out, [12 | 5, -7 | 3, 100 | 7, 5 | 2]);
    elementwise_binary::<i32, Shl>(&lhs, &[1], &rhs, &[1], &mut out, &shape);
    assert_eq!(out, [12 << 5, -7 << 3, 100 << 7, 5 << 2]);
    elementwise_binary::<i32, Shr>(&lhs, &[1], &rhs, &[1], &mut out, &shape);
    assert_eq!(out, [12 >> 5, -7 >> 3, 100 >> 7, 5 >> 2]);
    elementwise_binary::<i32, Div>(&lhs, &[1], &rhs, &[1], &mut out, &shape);
    assert_eq!(out, [2, -2, 14, 2]);
}

#[test]
fn operands_are_classified_by_axes_and_inner_stride() {
    assert_eq!(classify_operand(1, 0), OperandClass::Broadcast);
    assert_eq!(classify_operand(1, 1), OperandClass::Contiguous);
    assert_eq!(classify_operand(1, 2), OperandClass::Strided);
    assert_eq!(classify_operand(1, 17), OperandClass::Strided);
    assert_eq!(classify_operand(2, 0), OperandClass::NonUniform);
    assert_eq!(classify_operand(2, 1), OperandClass::NonUniform);
    assert_eq!(classify_operand(5, 3), OperandClass::NonUniform);
}

#[test]
fn decision_table_of_the_dispatcher() {
    let b = OperandClass::Broadcast;
    let c = OperandClass::Contiguous;
    let s = OperandClass::Strided;
    let n = OperandClass::NonUniform;
    assert_eq!(select_loop(c, b), LoopShape::Stride1And0);
    assert_eq!(select_loop(s, b), LoopShape::StrideNAnd0);
    assert_eq!(select_loop(b, b), LoopShape::StrideNAnd0);
    assert_eq!(select_loop(n, b), LoopShape::NonUniformAnd0);
    assert_eq!(select_loop(b, c), LoopShape::Stride0And1);
    assert_eq!(select_loop(b, s), LoopShape::Stride0AndN);
    assert_eq!(select_loop(b, n), LoopShape::Stride0AndNonUniform);
    assert_eq!(select_loop(c, c), LoopShape::Stride1And1);
    assert_eq!(select_loop(c, s), LoopShape::Stride1AndN);
    assert_eq!(select_loop(s, c), LoopShape::StrideNAnd1);
    assert_eq!(select_loop(s, s), LoopShape::StrideNAndN);
    assert_eq!(select_loop(n, c), LoopShape::NonUniformAnd1);
    assert_eq!(select_loop(c, n), LoopShape::Stride1AndNonUniform);
    assert_eq!(select_loop(n, s), LoopShape::NonUniformAndN);
    assert_eq!(select_loop(s, n), LoopShape::StrideNAndNonUniform);
    assert_eq!(select_loop(n, n), LoopShape::Unspecialized);
}

#[test]
fn shapes_broadcast_axis_by_axis() {
    assert_eq!(broadcast_shapes(&[3, 1], &[1, 4]), Some(vec![3, 4]));
    assert_eq!(broadcast_shapes(&[2, 2], &[2, 1]), Some(vec![2, 2]));
    assert_eq!(broadcast_shapes(&[5, 6], &[5, 6]), Some(vec![5, 6]));
    assert_eq!(broadcast_shapes(&[], &[]), Some(vec![]));
}

#[test]
fn shapes_are_aligned_at_the_last_axis() {
    assert_eq!(broadcast_shapes(&[4], &[3, 1]), Some(vec![3, 4]));
    assert_eq!(broadcast_shapes(&[2, 3, 4], &[4]), Some(vec![2, 3, 4]));
    assert_eq!(broadcast_shapes(&[], &[7, 2]), Some(vec![7, 2]));
    assert_eq!(broadcast_shapes(&[2, 1, 4], &[3, 1]), Some(vec![2, 3, 4]));
}

#[test]
fn shapes_that_differ_on_an_axis_do_not_broadcast() {
    assert_eq!(broadcast_shapes(&[2], &[3]), None);
    assert_eq!(broadcast_shapes(&[2, 3], &[3, 2]), None);
    assert_eq!(broadcast_shapes(&[4, 3], &[4]), None);
    assert_eq!(broadcast_shapes(&[0], &[2]), None);
}

#[test]
fn an_empty_axis_broadcasts_against_extent_one() {
    assert_eq!(broadcast_shapes(&[0], &[1]), Some(vec![0]));
    assert_eq!(broadcast_shapes(&[3, 1], &[1, 0]), Some(vec![3, 0]));
}

#[test]
fn broadcast_strides_are_zero_on_repeated_axes() {
    assert_eq!(broadcast_strides(&[3, 1], &[1, 1], 2), vec![1, 0]);
    assert_eq!(broadcast_strides(&[1, 4], &[4, 1], 2), vec![0, 1]);
    assert_eq!(broadcast_strides(&[4], &[2], 3), vec![0, 0, 2]);
    assert_eq!(broadcast_strides(&[2, 3], &[3, 1], 2), vec![3, 1]);
    assert_eq!(broadcast_strides(&[], &[], 2), vec![0, 0]);
}

#[test]
fn column_times_row_has_one_element_per_pair() {
    let a = [2i32, 3, 5];
    let b = [10i32, 20, 30, 40];
    let (values, shape) =
        broadcast_binary::<i32, Mul>(&a, &[3, 1], &[1, 1], &b, &[1, 4], &[4, 1]).unwrap();
    assert_eq!(shape, vec![3, 4]);
    assert_eq!(values.len(), 12);
    for i in 0..3 {
        for j in 0..4 {
            assert_eq!(values[i * 4 + j], a[i] * b[j]);
        }
    }
}

#[test]
fn matrix_times_column_through_broadcasting() {
    let a = [1i32, 2, 3, 4];
    let b = [10i32, 20];
    let (values, shape) =
        broadcast_binary::<i32, Mul>(&a, &[2, 2], &[2, 1], &b, &[2, 1], &[1, 1]).unwrap();
    assert_eq!(shape, vec![2, 2]);
    assert_eq!(values, vec![10, 20, 60, 80]);
}

#[test]
fn broadcasting_a_scalar_and_a_shorter_rank() {
    let a = [1u8, 2, 3, 4, 5, 6];
    let (values, shape) =
        broadcast_binary::<u8, Add>(&a, &[2, 3], &[3, 1], &[100], &[], &[]).unwrap();
    assert_eq!(shape, vec![2, 3]);
    assert_eq!(values, vec![101, 102, 103, 104, 105, 106]);
    let (values, shape) =
        broadcast_binary::<u8, Sub>(&[10, 20, 30], &[3], &[1], &a, &[2, 3], &[3, 1]).unwrap();
    assert_eq!(shape, vec![2, 3]);
    assert_eq!(values, vec![9, 18, 27, 6, 15, 24]);
}

#[test]
fn broadcasting_refuses_what_does_not_fit() {
    assert_eq!(broadcast_binary::<i32, Add>(&[1, 2], &[2], &[1], &[1, 2, 3], &[3], &[1]), None);
    let huge = usize::MAX / 2 + 1;
    assert_eq!(
        broadcast_binary::<i32, Add>(&[1], &[huge, 1], &[0, 0], &[2], &[1, huge], &[0, 0]),
        None
    );
}

#[test]
fn broadcasting_an_empty_operand_gives_an_empty_result() {
    let empty: [i32; 0] = [];
    let (values, shape) =
        broadcast_binary::<i32, Add>(&empty, &[0], &[1], &[5], &[1], &[1]).unwrap();
    assert_eq!(shape, vec![0]);
    assert_eq!(values, Vec::<i32>::new());
}

#[test]
fn shift_counts_wrap_at_the_bit_width() {
    assert_eq!(<Shl as BinaryOp<u8>>::apply(1, 8), 1);
    assert_eq!(<Shl as BinaryOp<u8>>::apply(1, 9), 2);
    assert_eq!(<Shl as BinaryOp<u8>>::apply(1, 255), 128);
    assert_eq!(<Shr as BinaryOp<u8>>::apply(128, 15), 1);
    assert_eq!(<Shl as BinaryOp<u32>>::apply(3, 33), 6);
    assert_eq!(<Shr as BinaryOp<u64>>::apply(16, 68), 1);
    assert_eq!(<Shl as BinaryOp<u128>>::apply(1, 129), 2);
    assert_eq!(<Shl as BinaryOp<usize>>::apply(1, usize::MAX), 1usize.wrapping_shl(u32::MAX));
    assert_eq!(<Shl as BinaryOp<i32>>::apply(1, 32), 1);
    assert_eq!(<Shl as BinaryOp<i32>>::apply(1, -1), i32::MIN);
    assert_eq!(<Shr as BinaryOp<i32>>::apply(-16, 34), -4);
    assert_eq!(<Shr as BinaryOp<i8>>::apply(64, -2), 1);
    assert_eq!(<Shl as BinaryOp<i8>>::apply(1, i8::MIN), 1);
    assert_eq!(<Shl as BinaryOp<i64>>::apply(1, -63), 2);
    assert_eq!(<Shr as BinaryOp<i128>>::apply(-8, 130), -2);
    assert_eq!(<Shl as BinaryOp<isize>>::apply(5, 0), 5);
}

#[test]
fn shifts_by_any_count_through_the_dispatcher() {
    let lhs = [1u8, 1, 1, 255];
    let rhs = [0u8, 7, 12, 9];
    let mut out = [0u8; 4];
    elementwise_binary::<u8, Shl>(&lhs, &[1], &rhs, &[1], &mut out, &[4]);
    assert_eq!(out, [1, 128, 16, 254]);
    elementwise_binary::<u8, Shr>(&lhs, &[1], &rhs, &[1], &mut out, &[4]);
    assert_eq!(out, [1, 0, 0, 127]);
}

//! Element-wise binary operations over strided, possibly broadcast views.
//!
//! The dispatcher collapses both operands, classifies each as uniform (one
//! axis) or non-uniform, and hands the work to the loop written for that
//! pair of classes. Every loop computes the same thing: the operator applied
//! to corresponding elements of the two views.
use crate::collapse_contiguous::collapse_to_uniform_stride;
use crate::flat_index_generator::FlatIndexGenerator;
use crate::layout::{
    element_count, gather, gather_uniform, in_bounds, lemma_offset_single,
    lemma_offset_two_axes,
    lemma_same_offsets_gather, lemma_same_offsets_uniform, lemma_strided_index,
    lemma_volume_single, offset_at, same_offsets, strided_fits, volume,
};
use crate::ops::{admissible, elementwise, BinaryOp};
use vstd::prelude::*;
use vstd::slice::slice_to_vec;

verus! {

/// The general uniform loop: both operands are read at constant steps.
pub fn kernel_stride_n_n<T: Copy, Op: BinaryOp<T>>(
    lhs: &[T],
    lhs_stride: usize,
    rhs: &[T],
    rhs_stride: usize,
    dst: &mut [T],
    count: usize,
)
    requires
        count <= old(dst)@.len(),
        strided_fits(count as nat, lhs_stride, lhs@.len()),
        strided_fits(count as nat, rhs_stride, rhs@.len()),
        admissible::<T, Op>(
            gather_uniform(lhs@, count as nat, lhs_stride),
            gather_uniform(rhs@, count as nat, rhs_stride),
        ),
    ensures
        final(dst)@ =~= elementwise::<T, Op>(
            gather_uniform(lhs@, count as nat, lhs_stride),
            gather_uniform(rhs@, count as nat, rhs_stride),
        ) + old(dst)@.skip(count as int),
{
    let ghost before = dst@;
    let ghost left = gather_uniform(lhs@, count as nat, lhs_stride);
    let ghost right = gather_uniform(rhs@, count as nat, rhs_stride);
    let lhs_len = lhs.len();
    let rhs_len = rhs.len();
    let mut i: usize = 0;
    while i < count
        invariant
            i <= count,
            count <= before.len(),
            dst@.len() == before.len(),
            lhs_len == lhs@.len(),
            rhs_len == rhs@.len(),
            strided_fits(count as nat, lhs_stride, lhs@.len()),
            strided_fits(count as nat, rhs_stride, rhs@.len()),
            left == gather_uniform(lhs@, count as nat, lhs_stride),
            right == gather_uniform(rhs@, count as nat, rhs_stride),
            admissible::<T, Op>(left, right),
            forall|k: int| 0 <= k < i ==> dst@[k] == Op::eval(left[k], right[k]),
            forall|k: int| count <= k < before.len() ==> dst@[k] == before[k],
        decreases count - i,
    {
        proof {
            lemma_strided_index(i as int, count as nat, lhs_stride, lhs_len);
            lemma_strided_index(i as int, count as nat, rhs_stride, rhs_len);
            assert(Op::admits(left[i as int], right[i as int]));
        }
        dst[i] = Op::apply(lhs[i * lhs_stride], rhs[i * rhs_stride]);
        i += 1;
    }
}

/// One side is walked by the index generator, the other at a constant step.
pub fn kernel_nonunif_n<T: Copy, Op: BinaryOp<T>>(
    lhs: &[T],
    lhs_shape: &[usize],
    lhs_stride: &[usize],
    rhs: &[T],
    rhs_stride: usize,
    dst: &mut [T],
    count: usize,
)
    requires
        lhs_shape@.len() == lhs_stride@.len(),
        count == volume(lhs_shape@),
        count <= old(dst)@.len(),
        in_bounds(lhs_shape@, lhs_stride@, lhs@.len() as int),
        strided_fits(count as nat, rhs_stride, rhs@.len()),
        admissible::<T, Op>(
            gather(lhs@, lhs_shape@, lhs_stride@),
            gather_uniform(rhs@, count as nat, rhs_stride),
        ),
    ensures
        final(dst)@ =~= elementwise::<T, Op>(
            gather(lhs@, lhs_shape@, lhs_stride@),
            gather_uniform(rhs@, count as nat, rhs_stride),
        ) + old(dst)@.skip(count as int),
{
    let ghost before = dst@;
    let ghost left = gather(lhs@, lhs_shape@, lhs_stride@);
    let ghost right = gather_uniform(rhs@, count as nat, rhs_stride);
    let lhs_len = lhs.len();
    let rhs_len = rhs.len();
    let mut lhs_indices = FlatIndexGenerator::from(lhs_shape, lhs_stride);
    let mut i: usize = 0;
    while i < count
        invariant
            i <= count,
            count == volume(lhs_shape@),
            count <= before.len(),
            dst@.len() == before.len(),
            lhs_len == lhs@.len(),
            rhs_len == rhs@.len(),
            lhs_indices.wf(),
            lhs_indices.shape() == lhs_shape@,
            lhs_indices.stride() == lhs_stride@,
            lhs_indices.position() == i,
            in_bounds(lhs_shape@, lhs_stride@, lhs@.len() as int),
            strided_fits(count as nat, rhs_stride, rhs@.len()),
            left == gather(lhs@, lhs_shape@, lhs_stride@),
            right == gather_uniform(rhs@, count as nat, rhs_stride),
            admissible::<T, Op>(left, right),
            forall|k: int| 0 <= k < i ==> dst@[k] == Op::eval(left[k], right[k]),
            forall|k: int| count <= k < before.len() ==> dst@[k] == before[k],
        decreases count - i,
    {
        let lhs_index = lhs_indices.next().unwrap();
        proof {
            lemma_strided_index(i as int, count as nat, rhs_stride, rhs_len);
            assert(0 <= offset_at(lhs_shape@, lhs_stride@, i as int) < lhs@.len());
            assert(Op::admits(left[i as int], right[i as int]));
        }
        dst[i] = Op::apply(lhs[lhs_index], rhs[i * rhs_stride]);
        i += 1;
    }
}

/// One side is read at a constant step, the other walked by the index
/// generator.
pub fn kernel_n_nonunif<T: Copy, Op: BinaryOp<T>>(
    lhs: &[T],
    lhs_stride: usize,
    rhs: &[T],
    rhs_shape: &[usize],
    rhs_stride: &[usize],
    dst: &mut [T],
    count: usize,
)
    requires
        rhs_shape@.len() == rhs_stride@.len(),
        count == volume(rhs_shape@),
        count <= old(dst)@.len(),
        strided_fits(count as nat, lhs_stride, lhs@.len()),
        in_bounds(rhs_shape@, rhs_stride@, rhs@.len() as int),
        admissible::<T, Op>(
            gather_uniform(lhs@, count as nat, lhs_stride),
            gather(rhs@, rhs_shape@, rhs_stride@),
        ),
    ensures
        final(dst)@ =~= elementwise::<T, Op>(
            gather_uniform(lhs@, count as nat, lhs_stride),
            gather(rhs@, rhs_shape@, rhs_stride@),
        ) + old(dst)@.skip(count as int),
{
    let ghost before = dst@;
    let ghost left = gather_uniform(lhs@, count as nat, lhs_stride);
    let ghost right = gather(rhs@, rhs_shape@, rhs_stride@);
    let lhs_len = lhs.len();
    let rhs_len = rhs.len();
    let mut rhs_indices = FlatIndexGenerator::from(rhs_shape, rhs_stride);
    let mut i: usize = 0;
    while i < count
        invariant
            i <= count,
            count == volume(rhs_shape@),
            count <= before.len(),
            dst@.len() == before.len(),
            lhs_len == lhs@.len(),
            rhs_len == rhs@.len(),
            rhs_indices.wf(),
            rhs_indices.shape() == rhs_shape@,
            rhs_indices.stride() == rhs_stride@,
            rhs_indices.position() == i,
            in_bounds(rhs_shape@, rhs_stride@, rhs@.len() as int),
            strided_fits(count as nat, lhs_stride, lhs@.len()),
            left == gather_uniform(lhs@, count as nat, lhs_stride),
            right == gather(rhs@, rhs_shape@, rhs_stride@),
            admissible::<T, Op>(left, right),
            forall|k: int| 0 <= k < i ==> dst@[k] == Op::eval(left[k], right[k]),
            forall|k: int| count <= k < before.len() ==> dst@[k] == before[k],
        decreases count - i,
    {
        let rhs_index = rhs_indices.next().unwrap();
        proof {
            lemma_strided_index(i as int, count as nat, lhs_stride, lhs_len);
            assert(0 <= offset_at(rhs_shape@, rhs_stride@, i as int) < rhs@.len());
            assert(Op::admits(left[i as int], right[i as int]));
        }
        dst[i] = Op::apply(lhs[i * lhs_stride], rhs[rhs_index]);
        i += 1;
    }
}

/// The fully general loop: both operands are walked by index generators in
/// lock-step.
pub fn kernel_unspecialized<T: Copy, Op: BinaryOp<T>>(
    lhs: &[T],
    lhs_shape: &[usize],
    lhs_stride: &[usize],
    rhs: &[T],
    rhs_shape: &[usize],
    rhs_stride: &[usize],
    dst: &mut [T],
)
    requires
        lhs_shape@.len() == lhs_stride@.len(),
        rhs_shape@.len() == rhs_stride@.len(),
        volume(lhs_shape@) == volume(rhs_shape@),
        volume(lhs_shape@) <= old(dst)@.len(),
        in_bounds(lhs_shape@, lhs_stride@, lhs@.len() as int),
        in_bounds(rhs_shape@, rhs_stride@, rhs@.len() as int),
        admissible::<T, Op>(
            gather(lhs@, lhs_shape@, lhs_stride@),
            gather(rhs@, rhs_shape@, rhs_stride@),
        ),
    ensures
        final(dst)@ =~= elementwise::<T, Op>(
            gather(lhs@, lhs_shape@, lhs_stride@),
            gather(rhs@, rhs_shape@, rhs_stride@),
        ) + old(dst)@.skip(volume(lhs_shape@) as int),
{
    let ghost before = dst@;
    let ghost left = gather(lhs@, lhs_shape@, lhs_stride@);
    let ghost right = gather(rhs@, rhs_shape@, rhs_stride@);
    let ghost total = volume(lhs_shape@);
    let lhs_len = lhs.len();
    let rhs_len = rhs.len();
    let dst_len = dst.len();
    let mut lhs_indices = FlatIndexGenerator::from(lhs_shape, lhs_stride);
    let mut rhs_indices = FlatIndexGenerator::from(rhs_shape, rhs_stride);
    let mut i: usize = 0;
    loop
        invariant_except_break
            i <= total,
            lhs_indices.position() == i,
            rhs_indices.position() == i,
        invariant
            total == volume(lhs_shape@),
            total == volume(rhs_shape@),
            total <= before.len(),
            dst_len == before.len(),
            dst@.len() == before.len(),
            lhs_len == lhs@.len(),
            rhs_len == rhs@.len(),
            lhs_indices.wf(),
            lhs_indices.shape() == lhs_shape@,
            lhs_indices.stride() == lhs_stride@,
            rhs_indices.wf(),
            rhs_indices.shape() == rhs_shape@,
            rhs_indices.stride() == rhs_stride@,
            in_bounds(lhs_shape@, lhs_stride@, lhs@.len() as int),
            in_bounds(rhs_shape@, rhs_stride@, rhs@.len() as int),
            left == gather(lhs@, lhs_shape@, lhs_stride@),
            right == gather(rhs@, rhs_shape@, rhs_stride@),
            admissible::<T, Op>(left, right),
            forall|k: int| 0 <= k < i ==> dst@[k] == Op::eval(left[k], right[k]),
            forall|k: int| total <= k < before.len() ==> dst@[k] == before[k],
        ensures
            i == total,
        decreases total - i,
    {
        match (lhs_indices.next(), rhs_indices.next()) {
            (Some(lhs_index), Some(rhs_index)) => {
                proof {
                    assert(0 <= offset_at(lhs_shape@, lhs_stride@, i as int) < lhs@.len());
                    assert(0 <= offset_at(rhs_shape@, rhs_stride@, i as int) < rhs@.len());
                    assert(Op::admits(left[i as int], right[i as int]));
                }
                dst[i] = Op::apply(lhs[lhs_index], rhs[rhs_index]);
                i += 1;
            },
            _ => {
                break ;
            },
        }
    }
}

/// The left operand is a single repeated element, the right is contiguous.
pub fn kernel_stride_0_1<T: Copy, Op: BinaryOp<T>>(
    lhs: &[T],
    rhs: &[T],
    dst: &mut [T],
    count: usize,
)
    requires
        count <= old(dst)@.len(),
        strided_fits(count as nat, 0, lhs@.len()),
        strided_fits(count as nat, 1, rhs@.len()),
        admissible::<T, Op>(
            gather_uniform(lhs@, count as nat, 0),
            gather_uniform(rhs@, count as nat, 1),
        ),
    ensures
        final(dst)@ =~= elementwise::<T, Op>(
            gather_uniform(lhs@, count as nat, 0),
            gather_uniform(rhs@, count as nat, 1),
        ) + old(dst)@.skip(count as int),
{
    kernel_stride_n_n::<T, Op>(lhs, 0, rhs, 1, dst, count)
}

/// The left operand is contiguous, the right is a single repeated element.
pub fn kernel_stride_1_0<T: Copy, Op: BinaryOp<T>>(
    lhs: &[T],
    rhs: &[T],
    dst: &mut [T],
    count: usize,
)
    requires
        count <= old(dst)@.len(),
        strided_fits(count as nat, 1, lhs@.len()),
        strided_fits(count as nat, 0, rhs@.len()),
        admissible::<T, Op>(
            gather_uniform(lhs@, count as nat, 1),
            gather_uniform(rhs@, count as nat, 0),
        ),
    ensures
        final(dst)@ =~= elementwise::<T, Op>(
            gather_uniform(lhs@, count as nat, 1),
            gather_uniform(rhs@, count as nat, 0),
        ) + old(dst)@.skip(count as int),
{
    kernel_stride_n_n::<T, Op>(lhs, 1, rhs, 0, dst, count)
}

/// The left operand is strided, the right is a single repeated element.
pub fn kernel_stride_n_0<T: Copy, Op: BinaryOp<T>>(
    lhs: &[T],
    lhs_stride: usize,
    rhs: &[T],
    dst: &mut [T],
    count: usize,
)
    requires
        count <= old(dst)@.len(),
        strided_fits(count as nat, lhs_stride, lhs@.len()),
        strided_fits(count as nat, 0, rhs@.len()),
        admissible::<T, Op>(
            gather_uniform(lhs@, count as nat, lhs_stride),
            gather_uniform(rhs@, count as nat, 0),
        ),
    ensures
        final(dst)@ =~= elementwise::<T, Op>(
            gather_uniform(lhs@, count as nat, lhs_stride),
            gather_uniform(rhs@, count as nat, 0),
        ) + old(dst)@.skip(count as int),
{
    kernel_stride_n_n::<T, Op>(lhs, lhs_stride, rhs, 0, dst, count)
}

/// The left operand is a single repeated element, the right is strided.
pub fn kernel_stride_0_n<T: Copy, Op: BinaryOp<T>>(
    lhs: &[T],
    rhs: &[T],
    rhs_stride: usize,
    dst: &mut [T],
    count: usize,
)
    requires
        count <= old(dst)@.len(),
        strided_fits(count as nat, 0, lhs@.len()),
        strided_fits(count as nat, rhs_stride, rhs@.len()),
        admissible::<T, Op>(
            gather_uniform(lhs@, count as nat, 0),
            gather_uniform(rhs@, count as nat, rhs_stride),
        ),
    ensures
        final(dst)@ =~= elementwise::<T, Op>(
            gather_uniform(lhs@, count as nat, 0),
            gather_uniform(rhs@, count as nat, rhs_stride),
        ) + old(dst)@.skip(count as int),
{
    kernel_stride_n_n::<T, Op>(lhs, 0, rhs, rhs_stride, dst, count)
}

/// Both operands are contiguous.
pub fn kernel_stride_1_1<T: Copy, Op: BinaryOp<T>>(
    lhs: &[T],
    rhs: &[T],
    dst: &mut [T],
    count: usize,
)
    requires
        count <= old(dst)@.len(),
        strided_fits(count as nat, 1, lhs@.len()),
        strided_fits(count as nat, 1, rhs@.len()),
        admissible::<T, Op>(
            gather_uniform(lhs@, count as nat, 1),
            gather_uniform(rhs@, count as nat, 1),
        ),
    ensures
        final(dst)@ =~= elementwise::<T, Op>(
            gather_uniform(lhs@, count as nat, 1),
            gather_uniform(rhs@, count as nat, 1),
        ) + old(dst)@.skip(count as int),
{
    kernel_stride_n_n::<T, Op>(lhs, 1, rhs, 1, dst, count)
}

/// The left operand is strided, the right is contiguous.
pub fn kernel_stride_n_1<T: Copy, Op: BinaryOp<T>>(
    lhs: &[T],
    lhs_stride: usize,
    rhs: &[T],
    dst: &mut [T],
    count: usize,
)
    requires
        count <= old(dst)@.len(),
        strided_fits(count as nat, lhs_stride, lhs@.len()),
        strided_fits(count as nat, 1, rhs@.len()),
        admissible::<T, Op>(
            gather_uniform(lhs@, count as nat, lhs_stride),
            gather_uniform(rhs@, count as nat, 1),
        ),
    ensures
        final(dst)@ =~= elementwise::<T, Op>(
            gather_uniform(lhs@, count as nat, lhs_stride),
            gather_uniform(rhs@, count as nat, 1),
        ) + old(dst)@.skip(count as int),
{
    kernel_stride_n_n::<T, Op>(lhs, lhs_stride, rhs, 1, dst, count)
}

/// The left operand is contiguous, the right is strided.
pub fn kernel_stride_1_n<T: Copy, Op: BinaryOp<T>>(
    lhs: &[T],
    rhs: &[T],
    rhs_stride: usize,
    dst: &mut [T],
    count: usize,
)
    requires
        count <= old(dst)@.len(),
        strided_fits(count as nat, 1, lhs@.len()),
        strided_fits(count as nat, rhs_stride, rhs@.len()),
        admissible::<T, Op>(
            gather_uniform(lhs@, count as nat, 1),
            gather_uniform(rhs@, count as nat, rhs_stride),
        ),
    ensures
        final(dst)@ =~= elementwise::<T, Op>(
            gather_uniform(lhs@, count as nat, 1),
            gather_uniform(rhs@, count as nat, rhs_stride),
        ) + old(dst)@.skip(count as int),
{
    kernel_stride_n_n::<T, Op>(lhs, 1, rhs, rhs_stride, dst, count)
}

/// The left operand is non-uniform, the right is a single repeated element.
pub fn kernel_nonunif_0<T: Copy, Op: BinaryOp<T>>(
    lhs: &[T],
    lhs_shape: &[usize],
    lhs_stride: &[usize],
    rhs: &[T],
    dst: &mut [T],
    count: usize,
)
    requires
        lhs_shape@.len() == lhs_stride@.len(),
        count == volume(lhs_shape@),
        count <= old(dst)@.len(),
        in_bounds(lhs_shape@, lhs_stride@, lhs@.len() as int),
        strided_fits(count as nat, 0, rhs@.len()),
        admissible::<T, Op>(
            gather(lhs@, lhs_shape@, lhs_stride@),
            gather_uniform(rhs@, count as nat, 0),
        ),
    ensures
        final(dst)@ =~= elementwise::<T, Op>(
            gather(lhs@, lhs_shape@, lhs_stride@),
            gather_uniform(rhs@, count as nat, 0),
        ) + old(dst)@.skip(count as int),
{
    kernel_nonunif_n::<T, Op>(lhs, lhs_shape, lhs_stride, rhs, 0, dst, count)
}

/// The left operand is a single repeated element, the right is non-uniform.
pub fn kernel_0_nonunif<T: Copy, Op: BinaryOp<T>>(
    lhs: &[T],
    rhs: &[T],
    rhs_shape: &[usize],
    rhs_stride: &[usize],
    dst: &mut [T],
    count: usize,
)
    requires
        rhs_shape@.len() == rhs_stride@.len(),
        count == volume(rhs_shape@),
        count <= old(dst)@.len(),
        strided_fits(count as nat, 0, lhs@.len()),
        in_bounds(rhs_shape@, rhs_stride@, rhs@.len() as int),
        admissible::<T, Op>(
            gather_uniform(lhs@, count as nat, 0),
            gather(rhs@, rhs_shape@, rhs_stride@),
        ),
    ensures
        final(dst)@ =~= elementwise::<T, Op>(
            gather_uniform(lhs@, count as nat, 0),
            gather(rhs@, rhs_shape@, rhs_stride@),
        ) + old(dst)@.skip(count as int),
{
    kernel_n_nonunif::<T, Op>(lhs, 0, rhs, rhs_shape, rhs_stride, dst, count)
}

/// The left operand is non-uniform, the right is contiguous.
pub fn kernel_nonunif_1<T: Copy, Op: BinaryOp<T>>(
    lhs: &[T],
    lhs_shape: &[usize],
    lhs_stride: &[usize],
    rhs: &[T],
    dst: &mut [T],
    count: usize,
)
    requires
        lhs_shape@.len() == lhs_stride@.len(),
        count == volume(lhs_shape@),
        count <= old(dst)@.len(),
        in_bounds(lhs_shape@, lhs_stride@, lhs@.len() as int),
        strided_fits(count as nat, 1, rhs@.len()),
        admissible::<T, Op>(
            gather(lhs@, lhs_shape@, lhs_stride@),
            gather_uniform(rhs@, count as nat, 1),
        ),
    ensures
        final(dst)@ =~= elementwise::<T, Op>(
            gather(lhs@, lhs_shape@, lhs_stride@),
            gather_uniform(rhs@, count as nat, 1),
        ) + old(dst)@.skip(count as int),
{
    kernel_nonunif_n::<T, Op>(lhs, lhs_shape, lhs_stride, rhs, 1, dst, count)
}

/// The left operand is contiguous, the right is non-uniform.
pub fn kernel_1_nonunif<T: Copy, Op: BinaryOp<T>>(
    lhs: &[T],
    rhs: &[T],
    rhs_shape: &[usize],
    rhs_stride: &[usize],
    dst: &mut [T],
    count: usize,
)
    requires
        rhs_shape@.len() == rhs_stride@.len(),
        count == volume(rhs_shape@),
        count <= old(dst)@.len(),
        strided_fits(count as nat, 1, lhs@.len()),
        in_bounds(rhs_shape@, rhs_stride@, rhs@.len() as int),
        admissible::<T, Op>(
            gather_uniform(lhs@, count as nat, 1),
            gather(rhs@, rhs_shape@, rhs_stride@),
        ),
    ensures
        final(dst)@ =~= elementwise::<T, Op>(
            gather_uniform(lhs@, count as nat, 1),
            gather(rhs@, rhs_shape@, rhs_stride@),
        ) + old(dst)@.skip(count as int),
{
    kernel_n_nonunif::<T, Op>(lhs, 1, rhs, rhs_shape, rhs_stride, dst, count)
}

/// A collapsed operand with a single axis is a strided read of its buffer.
proof fn lemma_uniform_operand<T>(
    buf: Seq<T>,
    shape: Seq<usize>,
    stride: Seq<usize>,
    collapsed_shape: Seq<usize>,
    collapsed_stride: Seq<usize>,
    len: int,
)
    requires
        collapsed_shape.len() == 1,
        collapsed_stride.len() == 1,
        same_offsets(shape, stride, collapsed_shape, collapsed_stride),
        in_bounds(shape, stride, len),
        0 <= len,
    ensures
        volume(shape) == collapsed_shape[0],
        gather(buf, shape, stride) == gather_uniform(
            buf,
            collapsed_shape[0] as nat,
            collapsed_stride[0],
        ),
        strided_fits(collapsed_shape[0] as nat, collapsed_stride[0], len as nat),
{
    assert(collapsed_shape =~= seq![collapsed_shape[0]]);
    assert(collapsed_stride =~= seq![collapsed_stride[0]]);
    lemma_same_offsets_uniform(buf, shape, stride, collapsed_shape[0], collapsed_stride[0], len);
}

/// A view without axes holds exactly the first element of its buffer.
proof fn lemma_scalar_operand<T>(buf: Seq<T>, shape: Seq<usize>, stride: Seq<usize>)
    requires
        shape.len() == 0,
    ensures
        volume(shape) == 1,
        offset_at(shape, stride, 0) == 0,
        gather(buf, shape, stride) =~= seq![buf[0]],
{
}

/// Applies `Op` to every element of the view of `lhs` and the single value
/// `rhs`, writing the results to the front of `dst` in row-major order. This
/// is the fast path for a right operand that is a logical scalar.
pub fn elementwise_scalar<T: Copy, Op: BinaryOp<T>>(
    lhs: &[T],
    lhs_shape: &[usize],
    lhs_stride: &[usize],
    rhs: T,
    dst: &mut [T],
)
    requires
        lhs_shape@.len() == lhs_stride@.len(),
        volume(lhs_shape@) <= old(dst)@.len(),
        in_bounds(lhs_shape@, lhs_stride@, lhs@.len() as int),
        admissible::<T, Op>(
            gather(lhs@, lhs_shape@, lhs_stride@),
            Seq::new(volume(lhs_shape@), |k: int| rhs),
        ),
    ensures
        final(dst)@ =~= elementwise::<T, Op>(
            gather(lhs@, lhs_shape@, lhs_stride@),
            Seq::new(volume(lhs_shape@), |k: int| rhs),
        ) + old(dst)@.skip(volume(lhs_shape@) as int),
{
    let ghost left = gather(lhs@, lhs_shape@, lhs_stride@);
    let ghost right = Seq::new(volume(lhs_shape@), |k: int| rhs);
    let lhs_len = lhs.len();
    let dst_len = dst.len();
    if lhs_stride.len() == 0 {
        proof {
            lemma_scalar_operand(lhs@, lhs_shape@, lhs_stride@);
            assert(0 <= offset_at(lhs_shape@, lhs_stride@, 0) < lhs@.len());
            assert(Op::admits(left[0], right[0]));
        }
        dst[0] = Op::apply(lhs[0], rhs);
        return ;
    }
    let cell: [T; 1] = [rhs];
    let rhs_buf = cell.as_slice();
    let (shape, stride) = collapse_to_uniform_stride(lhs_shape, lhs_stride);
    let dims = shape.len();
    let inner_stride = stride[dims - 1];
    if dims == 1 {
        let count = shape[0];
        proof {
            lemma_uniform_operand(
                lhs@,
                lhs_shape@,
                lhs_stride@,
                shape@,
                stride@,
                lhs@.len() as int,
            );
            assert(right =~= gather_uniform(rhs_buf@, count as nat, 0));
        }
        if inner_stride == 1 {
            kernel_stride_1_0::<T, Op>(lhs, rhs_buf, dst, count)
        } else {
            kernel_stride_n_0::<T, Op>(lhs, inner_stride, rhs_buf, dst, count)
        }
    } else {
        proof {
            lemma_same_offsets_gather(
                lhs@,
                lhs_shape@,
                lhs_stride@,
                shape@,
                stride@,
                lhs@.len() as int,
            );
        }
        let count = element_count(shape.as_slice()).unwrap();
        proof {
            assert(right =~= gather_uniform(rhs_buf@, count as nat, 0));
        }
        kernel_nonunif_0::<T, Op>(lhs, shape.as_slice(), stride.as_slice(), rhs_buf, dst, count)
    }
}

/// The dispatcher and the general loop agree: reading each operand
/// through any view that visits the same offsets as the view it was given,
/// such as its collapsed form, yields element by element what the general
/// indexed loop yields on the views as given.
pub proof fn lemma_dispatch_equivalence<T: Copy, Op: BinaryOp<T>>(
    lhs: Seq<T>,
    rhs: Seq<T>,
    shape: Seq<usize>,
    lhs_stride: Seq<usize>,
    rhs_stride: Seq<usize>,
    lhs_shape: Seq<usize>,
    lhs_steps: Seq<usize>,
    rhs_shape: Seq<usize>,
    rhs_steps: Seq<usize>,
)
    requires
        same_offsets(shape, lhs_stride, lhs_shape, lhs_steps),
        same_offsets(shape, rhs_stride, rhs_shape, rhs_steps),
    ensures
        elementwise::<T, Op>(gather(lhs, lhs_shape, lhs_steps), gather(rhs, rhs_shape, rhs_steps))
            == elementwise::<T, Op>(gather(lhs, shape, lhs_stride), gather(rhs, shape, rhs_stride)),
{
    lemma_same_offsets_gather(lhs, shape, lhs_stride, lhs_shape, lhs_steps, 0);
    lemma_same_offsets_gather(rhs, shape, rhs_stride, rhs_shape, rhs_steps, 0);
}

/// How a collapsed operand is read.
#[derive(Clone, Copy, PartialEq, Eq, Structural, Debug)]
pub enum OperandClass {
    /// One axis with stride 0: a single element, repeated.
    Broadcast,
    /// One axis with stride 1.
    Contiguous,
    /// One axis with any other stride.
    Strided,
    /// Two or more axes: only the index generator can walk it.
    NonUniform,
}

/// The loops the dispatcher chooses from, named by how the left and the
/// right operand are read.
#[derive(Clone, Copy, PartialEq, Eq, Structural, Debug)]
pub enum LoopShape {
    Stride1And0,
    StrideNAnd0,
    Stride0And1,
    Stride0AndN,
    Stride1And1,
    Stride1AndN,
    StrideNAnd1,
    StrideNAndN,
    NonUniformAnd0,
    Stride0AndNonUniform,
    NonUniformAnd1,
    Stride1AndNonUniform,
    NonUniformAndN,
    StrideNAndNonUniform,
    Unspecialized,
}

/// The class of a collapsed operand with `dims` axes whose last axis has
/// stride `inner_stride`. Where an operand could count as both broadcast
/// and contiguous, broadcast wins.
pub open spec fn operand_class(dims: usize, inner_stride: usize) -> OperandClass {
    if dims != 1 {
        OperandClass::NonUniform
    } else if inner_stride == 0 {
        OperandClass::Broadcast
    } else if inner_stride == 1 {
        OperandClass::Contiguous
    } else {
        OperandClass::Strided
    }
}

/// The decision table: the loop for each pair of operand classes. A
/// broadcast right operand is looked at first, then a broadcast left one.
pub open spec fn loop_shape(lhs: OperandClass, rhs: OperandClass) -> LoopShape {
    match (lhs, rhs) {
        (OperandClass::Contiguous, OperandClass::Broadcast) => LoopShape::Stride1And0,
        (OperandClass::Broadcast, OperandClass::Broadcast) => LoopShape::StrideNAnd0,
        (OperandClass::Strided, OperandClass::Broadcast) => LoopShape::StrideNAnd0,
        (OperandClass::NonUniform, OperandClass::Broadcast) => LoopShape::NonUniformAnd0,
        (OperandClass::Broadcast, OperandClass::Contiguous) => LoopShape::Stride0And1,
        (OperandClass::Broadcast, OperandClass::Strided) => LoopShape::Stride0AndN,
        (OperandClass::Broadcast, OperandClass::NonUniform) => LoopShape::Stride0AndNonUniform,
        (OperandClass::Contiguous, OperandClass::Contiguous) => LoopShape::Stride1And1,
        (OperandClass::Contiguous, OperandClass::Strided) => LoopShape::Stride1AndN,
        (OperandClass::Strided, OperandClass::Contiguous) => LoopShape::StrideNAnd1,
        (OperandClass::Strided, OperandClass::Strided) => LoopShape::StrideNAndN,
        (OperandClass::NonUniform, OperandClass::Contiguous) => LoopShape::NonUniformAnd1,
        (OperandClass::Contiguous, OperandClass::NonUniform) => LoopShape::Stride1AndNonUniform,
        (OperandClass::NonUniform, OperandClass::Strided) => LoopShape::NonUniformAndN,
        (OperandClass::Strided, OperandClass::NonUniform) => LoopShape::StrideNAndNonUniform,
        (OperandClass::NonUniform, OperandClass::NonUniform) => LoopShape::Unspecialized,
    }
}

/// Classifies a collapsed operand.
pub fn classify_operand(dims: usize, inner_stride: usize) -> (class: OperandClass)
    ensures
        class == operand_class(dims, inner_stride),
{
    if dims != 1 {
        OperandClass::NonUniform
    } else if inner_stride == 0 {
        OperandClass::Broadcast
    } else if inner_stride == 1 {
        OperandClass::Contiguous
    } else {
        OperandClass::Strided
    }
}

/// Looks up the loop for a pair of operand classes.
pub fn select_loop(lhs: OperandClass, rhs: OperandClass) -> (shape: LoopShape)
    ensures
        shape == loop_shape(lhs, rhs),
{
    match rhs {
        OperandClass::Broadcast => match lhs {
            OperandClass::Contiguous => LoopShape::Stride1And0,
            OperandClass::NonUniform => LoopShape::NonUniformAnd0,
            _ => LoopShape::StrideNAnd0,
        },
        OperandClass::Contiguous => match lhs {
            OperandClass::Broadcast => LoopShape::Stride0And1,
            OperandClass::Contiguous => LoopShape::Stride1And1,
            OperandClass::Strided => LoopShape::StrideNAnd1,
            OperandClass::NonUniform => LoopShape::NonUniformAnd1,
        },
        OperandClass::Strided => match lhs {
            OperandClass::Broadcast => LoopShape::Stride0AndN,
            OperandClass::Contiguous => LoopShape::Stride1AndN,
            OperandClass::Strided => LoopShape::StrideNAndN,
            OperandClass::NonUniform => LoopShape::NonUniformAndN,
        },
        OperandClass::NonUniform => match lhs {
            OperandClass::Broadcast => LoopShape::Stride0AndNonUniform,
            OperandClass::Contiguous => LoopShape::Stride1AndNonUniform,
            OperandClass::Strided => LoopShape::StrideNAndNonUniform,
            OperandClass::NonUniform => LoopShape::Unspecialized,
        },
    }
}

/// Applies `Op` element by element to two views of a common `shape`, where a
/// stride of 0 marks an axis along which an operand is broadcast, and writes
/// the `volume(shape)` results to the front of `dst` in row-major order.
///
/// Whatever loop the dispatcher selects, the result is that of the fully
/// general indexed loop over the two views as given.
pub fn elementwise_binary<T: Copy, Op: BinaryOp<T>>(
    lhs: &[T],
    lhs_stride: &[usize],
    rhs: &[T],
    rhs_stride: &[usize],
    dst: &mut [T],
    shape: &[usize],
)
    requires
        lhs_stride@.len() == shape@.len(),
        rhs_stride@.len() == shape@.len(),
        volume(shape@) <= old(dst)@.len(),
        in_bounds(shape@, lhs_stride@, lhs@.len() as int),
        in_bounds(shape@, rhs_stride@, rhs@.len() as int),
        admissible::<T, Op>(
            gather(lhs@, shape@, lhs_stride@),
            gather(rhs@, shape@, rhs_stride@),
        ),
    ensures
        final(dst)@ =~= elementwise::<T, Op>(
            gather(lhs@, shape@, lhs_stride@),
            gather(rhs@, shape@, rhs_stride@),
        ) + old(dst)@.skip(volume(shape@) as int),
{
    let ghost left = gather(lhs@, shape@, lhs_stride@);
    let ghost right = gather(rhs@, shape@, rhs_stride@);
    let lhs_len = lhs.len();
    let rhs_len = rhs.len();
    let dst_len = dst.len();
    if lhs_stride.len() == 0 && rhs_stride.len() == 0 {
        proof {
            lemma_scalar_operand(lhs@, shape@, lhs_stride@);
            lemma_scalar_operand(rhs@, shape@, rhs_stride@);
            assert(0 <= offset_at(shape@, lhs_stride@, 0) < lhs@.len());
            assert(0 <= offset_at(shape@, rhs_stride@, 0) < rhs@.len());
            assert(Op::admits(left[0], right[0]));
        }
        dst[0] = Op::apply(lhs[0], rhs[0]);
        return ;
    }
    let (lhs_shape, lhs_steps) = collapse_to_uniform_stride(shape, lhs_stride);
    let (rhs_shape, rhs_steps) = collapse_to_uniform_stride(shape, rhs_stride);
    let lhs_dims = lhs_shape.len();
    let rhs_dims = rhs_shape.len();
    let lhs_inner_stride = lhs_steps[lhs_dims - 1];
    let rhs_inner_stride = rhs_steps[rhs_dims - 1];
    proof {
        if lhs_dims == 1 {
            lemma_uniform_operand(
                lhs@,
                shape@,
                lhs_stride@,
                lhs_shape@,
                lhs_steps@,
                lhs@.len() as int,
            );
        } else {
            lemma_same_offsets_gather(
                lhs@,
                shape@,
                lhs_stride@,
                lhs_shape@,
                lhs_steps@,
                lhs@.len() as int,
            );
        }
        if rhs_dims == 1 {
            lemma_uniform_operand(
                rhs@,
                shape@,
                rhs_stride@,
                rhs_shape@,
                rhs_steps@,
                rhs@.len() as int,
            );
        } else {
            lemma_same_offsets_gather(
                rhs@,
                shape@,
                rhs_stride@,
                rhs_shape@,
                rhs_steps@,
                rhs@.len() as int,
            );
        }
    }
    let lhs_class = classify_operand(lhs_dims, lhs_inner_stride);
    let rhs_class = classify_operand(rhs_dims, rhs_inner_stride);
    match select_loop(lhs_class, rhs_class) {
        LoopShape::Stride1And0 => kernel_stride_1_0::<T, Op>(lhs, rhs, dst, lhs_shape[0]),
        LoopShape::StrideNAnd0 => kernel_stride_n_0::<T, Op>(
            lhs,
            lhs_inner_stride,
            rhs,
            dst,
            lhs_shape[0],
        ),
        LoopShape::Stride0And1 => kernel_stride_0_1::<T, Op>(lhs, rhs, dst, rhs_shape[0]),
        LoopShape::Stride0AndN => kernel_stride_0_n::<T, Op>(
            lhs,
            rhs,
            rhs_inner_stride,
            dst,
            rhs_shape[0],
        ),
        LoopShape::Stride1And1 => kernel_stride_1_1::<T, Op>(lhs, rhs, dst, lhs_shape[0]),
        LoopShape::Stride1AndN => kernel_stride_1_n::<T, Op>(
            lhs,
            rhs,
            rhs_inner_stride,
            dst,
            lhs_shape[0],
        ),
        LoopShape::StrideNAnd1 => kernel_stride_n_1::<T, Op>(
            lhs,
            lhs_inner_stride,
            rhs,
            dst,
            rhs_shape[0],
        ),
        LoopShape::StrideNAndN => kernel_stride_n_n::<T, Op>(
            lhs,
            lhs_inner_stride,
            rhs,
            rhs_inner_stride,
            dst,
            lhs_shape[0],
        ),
        LoopShape::NonUniformAnd0 => kernel_nonunif_0::<T, Op>(
            lhs,
            lhs_shape.as_slice(),
            lhs_steps.as_slice(),
            rhs,
            dst,
            rhs_shape[0],
        ),
        LoopShape::Stride0AndNonUniform => kernel_0_nonunif::<T, Op>(
            lhs,
            rhs,
            rhs_shape.as_slice(),
            rhs_steps.as_slice(),
            dst,
            lhs_shape[0],
        ),
        LoopShape::NonUniformAnd1 => kernel_nonunif_1::<T, Op>(
            lhs,
            lhs_shape.as_slice(),
            lhs_steps.as_slice(),
            rhs,
            dst,
            rhs_shape[0],
        ),
        LoopShape::Stride1AndNonUniform => kernel_1_nonunif::<T, Op>(
            lhs,
            rhs,
            rhs_shape.as_slice(),
            rhs_steps.as_slice(),
            dst,
            lhs_shape[0],
        ),
        LoopShape::NonUniformAndN => kernel_nonunif_n::<T, Op>(
            lhs,
            lhs_shape.as_slice(),
            lhs_steps.as_slice(),
            rhs,
            rhs_inner_stride,
            dst,
            rhs_shape[0],
        ),
        LoopShape::StrideNAndNonUniform => kernel_n_nonunif::<T, Op>(
            lhs,
            lhs_inner_stride,
            rhs,
            rhs_shape.as_slice(),
            rhs_steps.as_slice(),
            dst,
            lhs_shape[0],
        ),
        LoopShape::Unspecialized => kernel_unspecialized::<T, Op>(
            lhs,
            lhs_shape.as_slice(),
            lhs_steps.as_slice(),
            rhs,
            rhs_shape.as_slice(),
            rhs_steps.as_slice(),
            dst,
        ),
    }
}

/// A buffer read as one contiguous axis is the buffer itself.
pub proof fn lemma_contiguous_operand<T>(buf: Seq<T>, n: usize)
    requires
        buf.len() == n,
    ensures
        volume(seq![n]) == n,
        in_bounds(seq![n], seq![1usize], n as int),
        gather(buf, seq![n], seq![1usize]) == buf,
{
    lemma_volume_single(n);
    assert forall|k: int| 0 <= k < n implies offset_at(seq![n], seq![1usize], k) == k by {
        lemma_offset_single(n, 1usize, k);
    }
    assert(gather(buf, seq![n], seq![1usize]) =~= buf);
}

/// Applies `Op` to corresponding elements of two whole buffers of equal
/// length and returns the results in a new buffer.
pub fn elementwise_contiguous<T: Copy, Op: BinaryOp<T>>(lhs: &[T], rhs: &[T]) -> (out: Vec<T>)
    requires
        lhs@.len() == rhs@.len(),
        admissible::<T, Op>(lhs@, rhs@),
    ensures
        out@ == elementwise::<T, Op>(lhs@, rhs@),
{
    let n = lhs.len();
    let mut out = slice_to_vec(lhs);
    let shape: [usize; 1] = [n];
    let stride: [usize; 1] = [1];
    proof {
        assert(shape@ =~= seq![n]);
        assert(stride@ =~= seq![1usize]);
        lemma_contiguous_operand(lhs@, n);
        lemma_contiguous_operand(rhs@, n);
    }
    elementwise_binary::<T, Op>(
        lhs,
        stride.as_slice(),
        rhs,
        stride.as_slice(),
        out.as_mut_slice(),
        shape.as_slice(),
    );
    proof {
        assert(out@ =~= elementwise::<T, Op>(lhs@, rhs@));
    }
    out
}

/// Broadcasting a column against a row: where the left operand holds a
/// column of `m` elements and the right one a row of `n` elements, the
/// result has shape `[m, n]`, and its element in row `i` and column `j` is
/// the operator applied to element `i` of the column and element `j` of the
/// row.
pub proof fn lemma_broadcast_column_row<T: Copy, Op: BinaryOp<T>>(
    column: Seq<T>,
    row: Seq<T>,
    m: usize,
    n: usize,
    i: int,
    j: int,
)
    requires
        0 <= i < m,
        0 <= j < n,
    ensures
        volume(seq![m, n]) == m * n,
        0 <= i * n + j < m * n,
        elementwise::<T, Op>(
            gather(column, seq![m, n], seq![1usize, 0usize]),
            gather(row, seq![m, n], seq![0usize, 1usize]),
        )[i * n + j] == Op::eval(column[i], row[j]),
{
    lemma_offset_two_axes(m, n, 1, 0, i, j);
    lemma_offset_two_axes(m, n, 0, 1, i, j);
}

} // verus!
